use bytes::Bytes;
use redis_core::resp::RedisValueRef;
use redis_core::streams::current_unix_timestamp_ms;
use redis_core::streams::field_map;
use redis_core::streams::format_id;
use redis_core::streams::generate_id;
use redis_core::streams::less_bytes;
use redis_core::streams::less_id;
use redis_core::streams::parse_id;
use redis_core::streams::resolve_id;
use redis_core::streams::validate_key;
use redis_core::streams::IdError;
use redis_core::streams::Stream;
use redis_core::streams::StreamKV;
use redis_core::streams::XreadStart;
use redis_core::waiters::WaitOutcome;

fn b(s: &str) -> Bytes {
    Bytes::from(s.to_string())
}

fn bulk(s: &str) -> RedisValueRef {
    RedisValueRef::BulkString(b(s))
}

fn list(items: &[&str]) -> Vec<Bytes> {
    items.iter().map(|s| b(s)).collect()
}

fn entry(id: &str, fields: &[&str]) -> RedisValueRef {
    RedisValueRef::Array(vec![
        bulk(id),
        RedisValueRef::Array(fields.iter().map(|s| bulk(s)).collect()),
    ])
}

fn error(message: &str) -> RedisValueRef {
    RedisValueRef::Error(b(message))
}

const INVALID: &str = "ERR Invalid stream ID specified as stream command argument";
const ZERO: &str = "ERR The ID specified in XADD must be greater than 0-0";
const NOT_AFTER_TOP: &str =
    "ERR The ID specified in XADD is equal or smaller than the target stream top item";

#[test]
fn xadd_with_a_full_identifier() {
    let mut store = Stream::new();
    assert_eq!(store.xadd(b("s"), b("1-1"), list(&["f", "v"]), 0), bulk("1-1"));
    assert_eq!(store.xadd(b("s"), b("1-2"), list(&["f", "v"]), 0), bulk("1-2"));
    assert_eq!(store.xadd(b("s"), b("5-0"), list(&["f", "v"]), 0), bulk("5-0"));
    assert!(store.contains(&b("s")));
    assert!(!store.contains(&b("t")));
}

#[test]
fn xadd_refuses_an_identifier_that_does_not_grow() {
    let mut store = Stream::new();
    assert_eq!(store.xadd(b("s"), b("1-1"), list(&["f", "v"]), 0), bulk("1-1"));
    assert_eq!(store.xadd(b("s"), b("1-1"), list(&["f", "v"]), 0), error(NOT_AFTER_TOP));
    assert_eq!(store.xadd(b("s"), b("0-9"), list(&["f", "v"]), 0), error(NOT_AFTER_TOP));
    assert_eq!(store.xadd(b("s"), b("1-0"), list(&["f", "v"]), 0), error(NOT_AFTER_TOP));
    // Nothing was added by the refused calls.
    assert_eq!(store.xrange(&b("s"), &b("-"), &b("+")), vec![entry("1-1", &["f", "v"])]);
}

#[test]
fn xadd_refuses_zero_and_what_is_no_identifier() {
    let mut store = Stream::new();
    assert_eq!(store.xadd(b("s"), b("0-0"), list(&[]), 0), error(ZERO));
    for bad in ["", "1", "a-1", "1-b", "1-2-3", "-1", "1-", "*-1", "18446744073709551616-0"] {
        assert_eq!(store.xadd(b("s"), b(bad), list(&[]), 0), error(INVALID), "{:?}", bad);
    }
    // A refusal makes no stream.
    assert!(!store.contains(&b("s")));
}

#[test]
fn xadd_compares_identifiers_as_numbers() {
    let mut store = Stream::new();
    assert_eq!(store.xadd(b("s"), b("9-0"), list(&[]), 0), bulk("9-0"));
    assert_eq!(store.xadd(b("s"), b("10-0"), list(&[]), 0), bulk("10-0"));
    assert_eq!(store.xadd(b("s"), b("010-1"), list(&[]), 0), bulk("10-1"));
    assert_eq!(store.xadd(b("s"), b("10-1"), list(&[]), 0), error(NOT_AFTER_TOP));
}

#[test]
fn xadd_chooses_the_sequence_number() {
    let mut store = Stream::new();
    assert_eq!(store.xadd(b("s"), b("0-*"), list(&[]), 99), bulk("0-1"));
    assert_eq!(store.xadd(b("s"), b("0-*"), list(&[]), 99), bulk("0-2"));
    assert_eq!(store.xadd(b("s"), b("5-*"), list(&[]), 99), bulk("5-0"));
    assert_eq!(store.xadd(b("s"), b("5-*"), list(&[]), 99), bulk("5-1"));
    assert_eq!(store.xadd(b("s"), b("4-*"), list(&[]), 99), error(NOT_AFTER_TOP));
    assert_eq!(store.xadd(b("t"), b("7-*"), list(&[]), 99), bulk("7-0"));
    assert_eq!(store.xadd(b("u"), b("x-*"), list(&[]), 99), error(INVALID));
}

#[test]
fn xadd_chooses_the_whole_identifier() {
    let mut store = Stream::new();
    assert_eq!(store.xadd(b("s"), b("*"), list(&[]), 1000), bulk("1000-0"));
    assert_eq!(store.xadd(b("s"), b("*"), list(&[]), 1000), bulk("1000-1"));
    // The wall clock went back: the identifiers go on from the last one.
    assert_eq!(store.xadd(b("s"), b("*"), list(&[]), 900), bulk("1000-2"));
    assert_eq!(store.xadd(b("s"), b("*"), list(&[]), 1001), bulk("1001-0"));
}

#[test]
fn generated_identifiers_at_the_limits() {
    let max = u64::MAX;
    assert_eq!(generate_id(None, None, 12), Ok((12, 0)));
    assert_eq!(generate_id(Some((5, max)), None, 3), Ok((6, 0)));
    assert_eq!(generate_id(Some((max, max)), None, 3), Err(IdError::NotAfterTop));
    assert_eq!(generate_id(Some((5, max)), Some(5), 0), Err(IdError::NotAfterTop));
    assert_eq!(generate_id(Some((5, 8)), Some(5), 0), Ok((5, 9)));
    assert_eq!(generate_id(None, Some(0), 0), Ok((0, 1)));
    assert_eq!(generate_id(None, Some(3), 0), Ok((3, 0)));
    assert_eq!(validate_key(None, (0, 0)), Err(IdError::Zero));
    assert_eq!(validate_key(None, (0, 1)), Ok((0, 1)));
    assert_eq!(validate_key(Some((2, 2)), (2, 2)), Err(IdError::NotAfterTop));
    assert_eq!(validate_key(Some((2, 2)), (2, 3)), Ok((2, 3)));
    assert_eq!(resolve_id(Some((2, 2)), b"2-*", 0), Ok((2, 3)));
    assert_eq!(resolve_id(None, b"nonsense", 0), Err(IdError::Invalid));
}

#[test]
fn identifiers_as_text() {
    assert_eq!(format_id((0, 1)), b"0-1".to_vec());
    assert_eq!(format_id((u64::MAX, 10)), b"18446744073709551615-10".to_vec());
    assert_eq!(parse_id(b"12-34"), Some((12, 34)));
    assert_eq!(parse_id(b"12"), None);
    assert_eq!(parse_id(b"12-x"), None);
    assert!(less_id((1, 9), (2, 0)));
    assert!(less_id((2, 0), (2, 1)));
    assert!(!less_id((2, 1), (2, 1)));
    assert!(!less_id((3, 0), (2, 9)));
}

#[test]
fn fields_are_ordered_and_the_last_value_wins() {
    let fields = field_map(&list(&["b", "1", "a", "2", "b", "3", "c", "4", "dangling"]));
    let flat: Vec<(Vec<u8>, Vec<u8>)> =
        fields.iter().map(|(n, v)| (n.to_vec(), v.to_vec())).collect();
    assert_eq!(
        flat,
        vec![
            (b"a".to_vec(), b"2".to_vec()),
            (b"b".to_vec(), b"3".to_vec()),
            (b"c".to_vec(), b"4".to_vec()),
        ]
    );
    assert!(less_bytes(b"a", b"b"));
    assert!(less_bytes(b"a", b"ab"));
    assert!(less_bytes(b"", b"a"));
    assert!(!less_bytes(b"a", b"a"));
    assert!(!less_bytes(b"b", b"ab"));
    assert!(!less_bytes(b"a", b""));
}

fn three() -> Stream {
    let mut store = Stream::new();
    store.xadd(b("s"), b("1-1"), list(&["temp", "20"]), 0);
    store.xadd(b("s"), b("1-2"), list(&["temp", "21", "hum", "40"]), 0);
    store.xadd(b("s"), b("3-0"), list(&[]), 0);
    store
}

#[test]
fn xrange_over_everything_lists_all_entries_in_order() {
    let store = three();
    assert_eq!(
        store.xrange(&b("s"), &b("-"), &b("+")),
        vec![
            entry("1-1", &["temp", "20"]),
            entry("1-2", &["hum", "40", "temp", "21"]),
            entry("3-0", &[]),
        ]
    );
}

#[test]
fn xrange_with_bounds() {
    let store = three();
    assert_eq!(
        store.xrange(&b("s"), &b("1-2"), &b("3-0")),
        vec![entry("1-2", &["hum", "40", "temp", "21"]), entry("3-0", &[])]
    );
    assert_eq!(store.xrange(&b("s"), &b("1-2"), &b("1-2")).len(), 1);
    assert_eq!(store.xrange(&b("s"), &b("-"), &b("1-1")), vec![entry("1-1", &["temp", "20"])]);
    assert_eq!(store.xrange(&b("s"), &b("2-0"), &b("2-9")), vec![]);
    assert_eq!(store.xrange(&b("s"), &b("3-0"), &b("1-1")), vec![]);
    assert_eq!(store.xrange(&b("s"), &b("nonsense"), &b("+")), vec![]);
    assert_eq!(store.xrange(&b("s"), &b("-"), &b("7")), vec![]);
    assert_eq!(store.xrange(&b("missing"), &b("-"), &b("+")), vec![]);
}

#[test]
fn xread_returns_what_lies_behind_the_identifier() {
    let mut store = three();
    store.xadd(b("t"), b("9-9"), list(&["k", "v"]), 0);
    assert_eq!(
        store.xread(&list(&["s", "1-1", "t", "0-0", "empty", "0-0"])),
        vec![
            RedisValueRef::Array(vec![
                bulk("s"),
                RedisValueRef::Array(vec![
                    entry("1-2", &["hum", "40", "temp", "21"]),
                    entry("3-0", &[]),
                ]),
            ]),
            RedisValueRef::Array(vec![
                bulk("t"),
                RedisValueRef::Array(vec![entry("9-9", &["k", "v"])]),
            ]),
        ]
    );
    assert_eq!(store.xread(&list(&["s", "3-0"])), vec![]);
    assert_eq!(store.xread(&list(&["s", "$"])), vec![]);
    assert_eq!(store.xread(&list(&["s", "nonsense"])), vec![]);
    assert_eq!(store.xread(&list(&[])), vec![]);
}

#[test]
fn blocking_xread_returns_at_once_when_there_are_entries() {
    let mut store = three();
    match store.blocking_xread(&list(&["s", "1-2"])) {
        XreadStart::Ready(reply) => assert_eq!(
            reply,
            RedisValueRef::Array(vec![RedisValueRef::Array(vec![
                bulk("s"),
                RedisValueRef::Array(vec![entry("3-0", &[])]),
            ])])
        ),
        XreadStart::Wait(_) => panic!("there were entries"),
    }
    match store.blocking_xread(&list(&[])) {
        XreadStart::Ready(reply) => assert_eq!(reply, RedisValueRef::NullArray),
        XreadStart::Wait(_) => panic!("there is nothing to wait for"),
    }
}

#[test]
fn blocking_xread_waits_for_an_entry() {
    let mut store = three();
    let keys = list(&["s", "3-0"]);
    let mut rx = match store.blocking_xread(&keys) {
        XreadStart::Wait(rx) => rx,
        XreadStart::Ready(_) => panic!("there was nothing to read"),
    };
    // A refused entry wakes nobody.
    store.xadd(b("s"), b("1-1"), list(&[]), 0);
    assert!(rx.try_recv().is_err());
    store.xadd(b("s"), b("4-0"), list(&["a", "b"]), 0);
    assert_eq!(rx.try_recv(), Ok(true));
    assert_eq!(
        store.blocking_xread_resume(&keys, WaitOutcome::Signalled),
        RedisValueRef::Array(vec![RedisValueRef::Array(vec![
            bulk("s"),
            RedisValueRef::Array(vec![entry("4-0", &["a", "b"])]),
        ])])
    );
}

#[test]
fn blocking_xread_resume_without_entries_or_signal() {
    let mut store = three();
    let keys = list(&["s", "3-0"]);
    assert_eq!(store.blocking_xread_resume(&keys, WaitOutcome::Signalled), RedisValueRef::NullArray);
    assert_eq!(store.blocking_xread_resume(&keys, WaitOutcome::TimedOut), RedisValueRef::NullArray);
    assert_eq!(
        store.blocking_xread_resume(&list(&["s", "0-0"]), WaitOutcome::ChannelLost),
        RedisValueRef::NullArray
    );
    assert_eq!(store.blocking_xread_resume(&list(&[]), WaitOutcome::TimedOut), RedisValueRef::NullArray);
}

#[test]
fn a_timeout_drops_waiters_that_have_gone() {
    let mut store = Stream::new();
    let keys = list(&["s", "0-0"]);
    let gone = match store.blocking_xread(&keys) {
        XreadStart::Wait(rx) => rx,
        XreadStart::Ready(_) => panic!("nothing to read"),
    };
    let mut alive = match store.blocking_xread(&keys) {
        XreadStart::Wait(rx) => rx,
        XreadStart::Ready(_) => panic!("nothing to read"),
    };
    drop(gone);
    assert_eq!(store.blocking_xread_resume(&keys, WaitOutcome::TimedOut), RedisValueRef::NullArray);
    store.xadd(b("s"), b("1-0"), list(&[]), 0);
    assert_eq!(alive.try_recv(), Ok(true));
}

#[test]
fn a_new_stream_has_no_last_identifier() {
    let mut stream = StreamKV::new();
    assert_eq!(stream.last(), None);
    stream.push((1, 2), vec![]);
    assert_eq!(stream.last(), Some((1, 2)));
    assert_eq!(stream.replies((0, 0), false, (u64::MAX, u64::MAX)).len(), 1);
    assert_eq!(stream.replies((1, 2), true, (u64::MAX, u64::MAX)).len(), 0);
}

#[test]
fn the_wall_clock_is_past_the_year_2020() {
    assert!(current_unix_timestamp_ms() > 1_577_836_800_000);
}
