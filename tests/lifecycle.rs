use kvcache::cache::{OP_GET, OP_INSERT, OP_REMOVE};
use kvcache::codec::encode_value;
use kvcache::store::Store;
use kvcache::{Cache, LogLevel};

fn frame(command: u8, key: &[u8; 63], raw: &[u8; 64]) -> [u8; 128] {
    let mut buf = [0; 128];
    buf[0] = command;
    buf[1..64].copy_from_slice(key);
    buf[64..128].copy_from_slice(raw);
    buf
}

fn record(key: &[u8; 63], raw: &[u8; 64]) -> Vec<u8> {
    let mut v = key.to_vec();
    v.extend_from_slice(raw);
    v
}

#[test]
fn expiry_removes_after_offset() {
    let t = 1_700_000_000;
    let k1 = [1u8; 63];
    let raw = encode_value(&[2u8; 56], 0, 3600);
    let mut cache = Cache::new("log", LogLevel::NORMAL);
    cache.handle_in_at(frame(OP_INSERT, &k1, &raw), t);
    let r = cache.handle_in_at(frame(OP_GET, &k1, &[0; 64]), t);
    let mut expected = vec![2u8; 56];
    expected.push(b'\n');
    assert_eq!(r.output, expected);
    assert_eq!(cache.invalidate_cache_at(t + 3599), 0);
    assert_eq!(cache.invalidate_cache_at(t + 3601), 1);
    let r = cache.handle_in_at(frame(OP_GET, &k1, &[0; 64]), t + 3602);
    assert_eq!(r.output, b"G\n".to_vec());
}

#[test]
fn zero_offset_survives_sweeps() {
    let mut cache = Cache::new("log", LogLevel::NORMAL);
    let raw = encode_value(&[3u8; 56], 0, 0);
    cache.handle_in_at(frame(OP_INSERT, &[4; 63], &raw), 10);
    assert_eq!(cache.invalidate_cache_at(i64::MAX), 0);
    assert_eq!(cache.get(&[4; 63]), Some(raw));
}

#[test]
fn second_sweep_removes_nothing() {
    let mut cache = Cache::new("log", LogLevel::NORMAL);
    cache.handle_in_at(frame(OP_INSERT, &[1; 63], &encode_value(&[1; 56], 0, 5)), 100);
    cache.handle_in_at(frame(OP_INSERT, &[2; 63], &encode_value(&[2; 56], 0, 50)), 100);
    cache.handle_in_at(frame(OP_INSERT, &[3; 63], &encode_value(&[3; 56], 0, 0)), 100);
    assert_eq!(cache.invalidate_cache_at(120), 1);
    assert_eq!(cache.invalidate_cache_at(120), 0);
    assert_eq!(cache.len(), 2);
}

#[test]
fn sweep_through_clock_removes_long_expired() {
    let mut cache = Cache::new("log", LogLevel::NORMAL);
    cache.handle_in_at(frame(OP_INSERT, &[1; 63], &encode_value(&[1; 56], 0, 5)), 100);
    cache.handle_in_at(frame(OP_INSERT, &[2; 63], &encode_value(&[1; 56], 0, 0)), 100);
    assert_eq!(cache.invalidate_cache(), 1);
    assert_eq!(cache.len(), 1);
}

#[test]
fn save_then_load_round_trips() {
    let now = 1_700_000_000;
    let mut cache = Cache::new("log", LogLevel::NORMAL);
    let live = encode_value(&[5; 56], 1_699_999_000, 3600);
    let forever = encode_value(&[6; 56], 1_000, 0);
    let stale = encode_value(&[7; 56], 1_000, 10);
    cache.handle_in_at(frame(OP_INSERT, &[1; 63], &live), now);
    cache.handle_in_at(frame(OP_INSERT, &[2; 63], &forever), now);
    cache.handle_in_at(frame(OP_INSERT, &[3; 63], &stale), now);
    let bytes = cache.create_byte_lines_at(now);
    assert_eq!(bytes.len(), 2 * 127);

    let mut loaded = Cache::new("log", LogLevel::NORMAL);
    loaded.load_at(&bytes, now);
    assert_eq!(loaded.len(), 2);
    assert_eq!(loaded.get(&[1; 63]), Some(live));
    assert_eq!(loaded.get(&[2; 63]), Some(forever));
    assert_eq!(loaded.get(&[3; 63]), None);
    let e = loaded.entry(&[1; 63]).unwrap();
    assert_eq!(e.created_at, 1_699_999_000);
    assert_eq!(e.expires_at, Some(1_700_002_600));
}

#[test]
fn save_through_clock_writes_whole_records() {
    let mut cache = Cache::new("log", LogLevel::NORMAL);
    cache.handle_in_at(frame(OP_INSERT, &[1; 63], &encode_value(&[5; 56], 0, 0)), 1);
    let bytes = cache.create_byte_lines();
    assert_eq!(bytes, record(&[1; 63], &encode_value(&[5; 56], 0, 0)));
}

#[test]
fn empty_save_then_load() {
    let now = 1_000_000;
    let mut cache = Cache::new("log", LogLevel::NORMAL);
    cache.handle_in_at(frame(OP_INSERT, &[1; 63], &encode_value(&[5; 56], 10, 10)), now);
    let bytes = cache.create_byte_lines_at(now);
    assert!(bytes.is_empty());
    let mut loaded = Cache::new("log", LogLevel::NORMAL);
    loaded.handle_in_at(frame(OP_INSERT, &[9; 63], &encode_value(&[5; 56], 10, 0)), now);
    loaded.load_at(&bytes, now);
    assert_eq!(loaded.len(), 0);
}

#[test]
fn load_skips_zero_keys_expired_and_partial_records() {
    let now = 5_000;
    let mut bytes = record(&[0; 63], &encode_value(&[1; 56], 4_000, 0));
    bytes.extend(record(&[1; 63], &encode_value(&[1; 56], 4_000, 500)));
    bytes.extend(record(&[2; 63], &encode_value(&[2; 56], 4_000, 2_000)));
    bytes.extend(record(&[2; 63], &encode_value(&[3; 56], 4_500, 2_000)));
    bytes.extend(vec![9u8; 100]);
    let records = Cache::handle_read_lines(&bytes);
    assert_eq!(records.len(), 4);
    assert_eq!(records[1].0, [1; 63]);
    let mut cache = Cache::new("log", LogLevel::NORMAL);
    cache.load_at(&bytes, now);
    assert_eq!(cache.len(), 1);
    assert_eq!(cache.get(&[2; 63]), Some(encode_value(&[3; 56], 4_500, 2_000)));
    assert_eq!(cache.entry(&[2; 63]).unwrap().created_at, 4_500);
}

#[test]
fn load_through_clock_keeps_never_expiring_records() {
    let mut bytes = record(&[1; 63], &encode_value(&[1; 56], 4_000, 0));
    bytes.extend(record(&[2; 63], &encode_value(&[1; 56], 4_000, 10)));
    let mut cache = Cache::new("log", LogLevel::NORMAL);
    cache.load(&bytes);
    assert_eq!(cache.len(), 1);
    assert!(cache.get(&[1; 63]).is_some());
}

#[test]
fn store_keeps_both_maps_together() {
    let mut store = Store::new();
    let raw = encode_value(&[8; 56], 0, 20);
    assert!(!store.insert([0; 63], raw, 100));
    assert_eq!(store.len(), 0);
    assert!(store.insert([1; 63], raw, 100));
    assert_eq!(store.len(), 1);
    assert_eq!(store.get(&[1; 63]), Some(raw));
    assert_eq!(store.entry(&[1; 63]).unwrap().expires_at, Some(120));
    assert_eq!(store.snapshot_for_save(), vec![([1; 63], raw)]);
    assert!(store.remove(&[1; 63]));
    assert!(!store.remove(&[1; 63]));
    assert!(store.entry(&[1; 63]).is_none());
    assert_eq!(store.len(), 0);
}

#[test]
fn remove_then_sweep_counts_only_present_keys() {
    let mut store = Store::new();
    store.insert([1; 63], encode_value(&[8; 56], 0, 20), 100);
    store.insert([2; 63], encode_value(&[8; 56], 0, 30), 100);
    assert_eq!(store.sweep(125), 1);
    assert_eq!(store.sweep(125), 0);
    assert!(store.get(&[2; 63]).is_some());
    let mut cache = Cache::new("log", LogLevel::NORMAL);
    cache.handle_in_at(frame(OP_REMOVE, &[2; 63], &[0; 64]), 1);
    assert_eq!(cache.len(), 0);
}
