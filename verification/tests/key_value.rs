use bytes::Bytes;
use redis_core::clock::product;
use redis_core::clock::sum;
use redis_core::clock::Clock;
use redis_core::key_value::KeyValue;
use redis_core::rdb::Expiry;
use redis_core::rdb::RdbError;
use redis_core::resp::RedisValueRef;

fn b(s: &str) -> Bytes {
    Bytes::from(s.to_string())
}

fn at(monotonic_ms: u64, unix_ms: u64) -> Clock {
    Clock { monotonic_ms, unix_ms }
}

fn listed(reply: RedisValueRef) -> Vec<Vec<u8>> {
    let mut keys = Vec::new();
    match reply {
        RedisValueRef::Array(items) => {
            for item in items {
                match item {
                    RedisValueRef::BulkString(k) => keys.push(k.to_vec()),
                    other => panic!("not a bulk string: {:?}", other),
                }
            }
        }
        other => panic!("not an array: {:?}", other),
    }
    keys.sort();
    keys
}

#[test]
fn set_then_get_returns_the_value() {
    let mut kv = KeyValue::new();
    kv.insert_entry(b("k"), b("v"), None, at(0, 0));
    assert_eq!(kv.get_entry(&b("k"), 1_000_000), Some(b("v")));
    assert_eq!(kv.get_entry(&b("other"), 0), None);
}

#[test]
fn set_overwrites_value_and_deadline() {
    let mut kv = KeyValue::new();
    kv.insert_entry(b("k"), b("old"), Some((b("PX"), 10)), at(0, 0));
    kv.insert_entry(b("k"), b("new"), None, at(5, 5));
    assert_eq!(kv.get_entry(&b("k"), 1_000), Some(b("new")));
}

#[test]
fn px_expires_after_milliseconds() {
    let mut kv = KeyValue::new();
    kv.insert_entry(b("k"), b("v"), Some((b("PX"), 100)), at(1_000, 50_000));
    assert_eq!(kv.get_entry(&b("k"), 1_099), Some(b("v")));
    assert!(kv.exists_at(&b("k"), 1_099));
    assert!(!kv.exists_at(&b("k"), 1_100));
    assert!(kv.contains(&b("k")));
    assert_eq!(kv.get_entry(&b("k"), 1_100), None);
    // The read took the entry away.
    assert!(!kv.contains(&b("k")));
    assert_eq!(kv.get_entry(&b("k"), 0), None);
}

#[test]
fn ex_counts_seconds() {
    let mut kv = KeyValue::new();
    kv.insert_entry(b("k"), b("v"), Some((b("EX"), 2)), at(500, 0));
    assert_eq!(kv.get_entry(&b("k"), 2_499), Some(b("v")));
    assert_eq!(kv.get_entry(&b("k"), 2_500), None);
}

#[test]
fn exat_and_pxat_are_points_of_unix_time() {
    let mut kv = KeyValue::new();
    // The wall clock shows 10 s; the deadline is at 12 s, 2 s from now.
    kv.insert_entry(b("a"), b("1"), Some((b("EXAT"), 12)), at(700, 10_000));
    assert!(kv.exists_at(&b("a"), 2_699));
    assert!(!kv.exists_at(&b("a"), 2_700));
    kv.insert_entry(b("b"), b("2"), Some((b("PXAT"), 10_250)), at(700, 10_000));
    assert!(kv.exists_at(&b("b"), 949));
    assert!(!kv.exists_at(&b("b"), 950));
    // A point that has passed expires at once.
    kv.insert_entry(b("c"), b("3"), Some((b("PXAT"), 9_000)), at(700, 10_000));
    assert!(!kv.exists_at(&b("c"), 700));
}

#[test]
fn unknown_expiry_option_expires_at_once() {
    let mut kv = KeyValue::new();
    kv.insert_entry(b("k"), b("v"), Some((b("ex"), 100)), at(40, 0));
    assert!(kv.contains(&b("k")));
    assert_eq!(kv.get_entry(&b("k"), 40), None);
    assert!(!kv.contains(&b("k")));
}

#[test]
fn negative_amounts_count_as_zero_and_large_ones_saturate() {
    let mut kv = KeyValue::new();
    kv.insert_entry(b("n"), b("v"), Some((b("EX"), -5)), at(40, 0));
    assert!(!kv.exists_at(&b("n"), 40));
    kv.insert_entry(b("m"), b("v"), Some((b("EX"), i64::MAX)), at(40, 0));
    assert!(kv.exists_at(&b("m"), u64::MAX - 1));
}

#[test]
fn saturating_arithmetic() {
    assert_eq!(sum(1, 2), 3);
    assert_eq!(sum(u64::MAX, 1), u64::MAX);
    assert_eq!(product(3, 1000), 3000);
    assert_eq!(product(u64::MAX / 2, 3), u64::MAX);
    assert_eq!(product(7, 0), 0);
    assert_eq!(at(10, 100).deadline_in(5), 15);
    assert_eq!(at(10, 100).deadline_at(130), 40);
    assert_eq!(at(10, 100).deadline_at(100), 10);
    assert_eq!(at(10, 100).deadline_at(7), 10);
}

#[test]
fn incr_counts_from_a_fresh_key() {
    let mut kv = KeyValue::new();
    for n in 1..=12i64 {
        assert_eq!(kv.incr(&b("counter"), n as u64), Ok(n));
    }
    assert_eq!(kv.get_entry(&b("counter"), 0), Some(b("12")));
}

#[test]
fn incr_adds_to_a_number_and_keeps_the_deadline() {
    let mut kv = KeyValue::new();
    kv.insert_entry(b("k"), b("41"), Some((b("PX"), 100)), at(0, 0));
    assert_eq!(kv.incr(&b("k"), 10), Ok(42));
    assert_eq!(kv.get_entry(&b("k"), 99), Some(b("42")));
    assert_eq!(kv.get_entry(&b("k"), 100), None);
    kv.insert_entry(b("neg"), b("-1"), None, at(0, 0));
    assert_eq!(kv.incr(&b("neg"), 0), Ok(0));
}

#[test]
fn incr_starts_over_when_the_entry_is_gone() {
    let mut kv = KeyValue::new();
    kv.insert_entry(b("k"), b("41"), Some((b("PX"), 100)), at(0, 0));
    assert_eq!(kv.incr(&b("k"), 100), Ok(1));
    // The new entry has no deadline.
    assert_eq!(kv.get_entry(&b("k"), u64::MAX), Some(b("1")));
}

#[test]
fn incr_refuses_what_is_no_number() {
    let mut kv = KeyValue::new();
    kv.insert_entry(b("k"), b("abc"), None, at(0, 0));
    assert_eq!(
        kv.incr(&b("k"), 0),
        Err("ERR value is not an integer or out of range".to_string())
    );
    assert_eq!(kv.get_entry(&b("k"), 0), Some(b("abc")));
    kv.insert_entry(b("max"), b("9223372036854775807"), None, at(0, 0));
    assert_eq!(
        kv.incr(&b("max"), 0),
        Err("ERR value is not an integer or out of range".to_string())
    );
    assert_eq!(kv.get_entry(&b("max"), 0), Some(b("9223372036854775807")));
}

#[test]
fn keys_star_lists_what_is_not_gone() {
    let mut kv = KeyValue::new();
    kv.insert_entry(b("a"), b("1"), None, at(0, 0));
    kv.insert_entry(b("b"), b("2"), Some((b("PX"), 10)), at(0, 0));
    kv.insert_entry(b("c"), b("3"), Some((b("PX"), 100)), at(0, 0));
    assert_eq!(listed(kv.keys(b("*"), 5)), vec![b"a".to_vec(), b"b".to_vec(), b"c".to_vec()]);
    assert_eq!(listed(kv.keys(b("*"), 10)), vec![b"a".to_vec(), b"c".to_vec()]);
    assert_eq!(listed(kv.keys(b("*"), 100)), vec![b"a".to_vec()]);
    // Listing removes nothing.
    assert!(kv.contains(&b("b")));
}

#[test]
fn keys_with_a_pattern() {
    let mut kv = KeyValue::new();
    for key in ["hello", "hallo", "hllo", "help", "world"] {
        kv.insert_entry(b(key), b("x"), None, at(0, 0));
    }
    assert_eq!(listed(kv.keys(b("h?llo"), 0)), vec![b"hallo".to_vec(), b"hello".to_vec()]);
    assert_eq!(
        listed(kv.keys(b("h*"), 0)),
        vec![b"hallo".to_vec(), b"hello".to_vec(), b"help".to_vec(), b"hllo".to_vec()]
    );
    assert_eq!(listed(kv.keys(b("nothing"), 0)), Vec::<Vec<u8>>::new());
}

#[test]
fn get_all_keys_lists_each_key_once() {
    let mut kv = KeyValue::new();
    kv.insert_entry(b("a"), b("1"), None, at(0, 0));
    kv.insert_entry(b("b"), b("2"), Some((b("PX"), 1)), at(0, 0));
    kv.insert_entry(b("a"), b("3"), None, at(0, 0));
    let mut keys: Vec<Vec<u8>> = kv.get_all_keys().iter().map(|k| k.to_vec()).collect();
    keys.sort();
    assert_eq!(keys, vec![b"a".to_vec(), b"b".to_vec()]);
}

#[test]
fn a_new_store_has_no_path() {
    let kv = KeyValue::new();
    assert_eq!(kv.get_dir(), "");
    assert_eq!(kv.get_filename(), "");
}

fn snapshot() -> Vec<u8> {
    let mut data = b"REDIS0011".to_vec();
    data.extend_from_slice(&[0xFA, 3]);
    data.extend_from_slice(b"ver");
    data.extend_from_slice(&[1, b'7']);
    data.extend_from_slice(&[0xFE, 0, 0xFB, 3, 2]);
    // plain entry
    data.extend_from_slice(&[0x00, 3]);
    data.extend_from_slice(b"foo");
    data.extend_from_slice(&[3]);
    data.extend_from_slice(b"bar");
    // expires at 2 000 ms of Unix time
    data.push(0xFC);
    data.extend_from_slice(&2_000u64.to_le_bytes());
    data.extend_from_slice(&[0x00, 4]);
    data.extend_from_slice(b"soon");
    data.extend_from_slice(&[1, b'x']);
    // expires at 9 s of Unix time
    data.push(0xFD);
    data.extend_from_slice(&9u32.to_le_bytes());
    data.extend_from_slice(&[0x00, 5]);
    data.extend_from_slice(b"later");
    data.extend_from_slice(&[0xC0, 7]);
    data.push(0xFF);
    data.extend_from_slice(&[0; 8]);
    data
}

#[test]
fn load_from_rdb_seeds_the_store() {
    let mut kv = KeyValue::new();
    // The wall clock shows 1 s, the monotonic clock 100 ms.
    assert_eq!(kv.load_from_rdb(&snapshot(), at(100, 1_000)), Ok(()));
    assert_eq!(kv.get_entry(&b("foo"), u64::MAX), Some(b("bar")));
    assert_eq!(kv.get_entry(&b("soon"), 1_099), Some(b("x")));
    assert_eq!(kv.get_entry(&b("soon"), 1_100), None);
    assert_eq!(kv.get_entry(&b("later"), 8_099), Some(b("7")));
    assert_eq!(kv.get_entry(&b("later"), 8_100), None);
}

#[test]
fn load_from_rdb_skips_what_has_expired() {
    let mut kv = KeyValue::new();
    assert_eq!(kv.load_from_rdb(&snapshot(), at(100, 2_000)), Ok(()));
    assert!(kv.contains(&b("foo")));
    assert!(!kv.contains(&b("soon")));
    assert!(kv.contains(&b("later")));
}

#[test]
fn load_from_rdb_reports_bad_data_and_changes_nothing() {
    let mut kv = KeyValue::new();
    kv.insert_entry(b("k"), b("v"), None, at(0, 0));
    assert_eq!(kv.load_from_rdb(b"RUBBISH00", at(0, 0)), Err(RdbError::InvalidHeader));
    let mut cut = snapshot();
    cut.truncate(28);
    assert_eq!(kv.load_from_rdb(&cut, at(0, 0)), Err(RdbError::UnexpectedEof));
    assert_eq!(listed(kv.keys(b("*"), 0)), vec![b"k".to_vec()]);
}

#[test]
fn load_from_rdb_file_records_the_path() {
    let mut kv = KeyValue::new();
    let data = snapshot();
    assert_eq!(
        kv.load_from_rdb_file("/tmp/dir".to_string(), "dump.rdb".to_string(), Some(&data[..]), at(0, 0)),
        Ok(())
    );
    assert_eq!(kv.get_dir(), "/tmp/dir");
    assert_eq!(kv.get_filename(), "dump.rdb");
    assert!(kv.contains(&b("foo")));
    let mut other = KeyValue::new();
    assert_eq!(
        other.load_from_rdb_file("d".to_string(), "f".to_string(), None, at(0, 0)),
        Err(RdbError::IoError)
    );
    assert_eq!(other.get_dir(), "d");
    assert_eq!(other.get_filename(), "f");
}

#[test]
fn expiry_to_instant() {
    assert_eq!(Expiry::Seconds(5).to_instant(at(100, 3_000)), Some(2_100));
    assert_eq!(Expiry::Milliseconds(3_001).to_instant(at(100, 3_000)), Some(101));
    assert_eq!(Expiry::Milliseconds(3_000).to_instant(at(100, 3_000)), None);
    assert_eq!(Expiry::Seconds(2).to_instant(at(100, 3_000)), None);
    assert_eq!(Expiry::Milliseconds(u64::MAX).to_instant(at(100, 0)), Some(u64::MAX));
    assert!(Expiry::Seconds(3).is_expired(at(0, 3_000)));
    assert!(!Expiry::Seconds(4).is_expired(at(0, 3_000)));
}
