use bytes::Bytes;
use bytes::BytesMut;
use redis_core::clock::Clock;
use redis_core::commands::execute_command;
use redis_core::commands::handle_command;
use redis_core::commands::is_psync_command;
use redis_core::commands::resume_command;
use redis_core::commands::Command;
use redis_core::commands::Executed;
use redis_core::commands::Handled;
use redis_core::commands::Pending;
use redis_core::redis::Info;
use redis_core::redis::Redis;
use redis_core::resp::RedisValueRef;
use redis_core::resp::RespParser;
use redis_core::waiters::WaitOutcome;

fn b(s: &str) -> Bytes {
    Bytes::from(s.to_string())
}

fn bulk(s: &str) -> RedisValueRef {
    RedisValueRef::BulkString(b(s))
}

fn simple(s: &str) -> RedisValueRef {
    RedisValueRef::String(b(s))
}

fn error(s: &str) -> RedisValueRef {
    RedisValueRef::Error(b(s))
}

fn frame(words: &[&str]) -> RedisValueRef {
    RedisValueRef::Array(words.iter().map(|w| bulk(w)).collect())
}

fn at(ms: u64) -> Clock {
    Clock { monotonic_ms: ms, unix_ms: 1_000_000 + ms }
}

fn reply(redis: &mut Redis, client: u64, ms: u64, words: &[&str]) -> RedisValueRef {
    match handle_command(frame(words), client, redis, at(ms)) {
        Handled::Reply(Some(r)) => r,
        Handled::Reply(None) => panic!("{:?} got no reply", words),
        Handled::Suspended { .. } => panic!("{:?} has to wait", words),
    }
}

/// Feeds bytes to the codec and the engine, and returns the bytes sent back.
fn wire(redis: &mut Redis, client: u64, ms: u64, input: &[u8]) -> Vec<u8> {
    let mut codec = RespParser;
    let mut inbound = BytesMut::from(input);
    let mut outbound = BytesMut::new();
    loop {
        match codec.decode(&mut inbound) {
            Ok(Some(value)) => match handle_command(value, client, redis, at(ms)) {
                Handled::Reply(Some(r)) => {
                    codec.encode(r, &mut outbound).expect("encoding does not fail");
                }
                Handled::Reply(None) => {}
                Handled::Suspended { .. } => panic!("the command has to wait"),
            },
            Ok(None) => break,
            Err(e) => panic!("the input is no frame: {:?}", e),
        }
    }
    outbound.to_vec()
}

#[test]
fn ping_gets_pong_on_the_wire() {
    let mut redis = Redis::new();
    assert_eq!(wire(&mut redis, 1, 0, b"*1\r\n$4\r\nPING\r\n"), b"+PONG\r\n".to_vec());
}

#[test]
fn set_then_get_on_the_wire() {
    let mut redis = Redis::new();
    assert_eq!(
        wire(&mut redis, 1, 0, b"*3\r\n$3\r\nSET\r\n$1\r\nk\r\n$1\r\nv\r\n"),
        b"+OK\r\n".to_vec()
    );
    assert_eq!(wire(&mut redis, 1, 0, b"*2\r\n$3\r\nGET\r\n$1\r\nk\r\n"), b"$1\r\nv\r\n".to_vec());
}

#[test]
fn pipelined_frames_are_answered_in_order() {
    let mut redis = Redis::new();
    assert_eq!(
        wire(
            &mut redis,
            1,
            0,
            b"*3\r\n$3\r\nSET\r\n$1\r\nk\r\n$1\r\nv\r\n*2\r\n$3\r\nGET\r\n$1\r\nk\r\n*1\r\n$4\r\nPING\r\n"
        ),
        b"+OK\r\n$1\r\nv\r\n+PONG\r\n".to_vec()
    );
}

#[test]
fn set_with_px_expires_on_the_wire() {
    let mut redis = Redis::new();
    assert_eq!(
        wire(
            &mut redis,
            1,
            0,
            b"*5\r\n$3\r\nSET\r\n$1\r\nk\r\n$1\r\nv\r\n$2\r\nPX\r\n$3\r\n100\r\n"
        ),
        b"+OK\r\n".to_vec()
    );
    assert_eq!(wire(&mut redis, 1, 200, b"*2\r\n$3\r\nGET\r\n$1\r\nk\r\n"), b"$-1\r\n".to_vec());
}

#[test]
fn blpop_is_served_by_a_push_from_another_client() {
    let mut redis = Redis::new();
    let (waiting, mut rx) = match handle_command(frame(&["BLPOP", "q", "10"]), 1, &mut redis, at(0)) {
        Handled::Suspended { waiting, rx } => (waiting, rx),
        Handled::Reply(_) => panic!("there was nothing to pop"),
    };
    match &waiting.on {
        Pending::List { key, timeout } => {
            assert_eq!(&key[..], b"q");
            assert_eq!(&timeout[..], b"10");
        }
        Pending::Streams { .. } => panic!("the client waits for a list"),
    }
    assert!(!waiting.in_exec);
    assert_eq!(wire(&mut redis, 2, 50, b"*3\r\n$5\r\nRPUSH\r\n$1\r\nq\r\n$5\r\nhello\r\n"), b":1\r\n".to_vec());
    assert_eq!(rx.try_recv(), Ok(true));
    let answer = match resume_command(waiting, WaitOutcome::Signalled, &mut redis, at(50)) {
        Handled::Reply(Some(r)) => r,
        _ => panic!("the pop is done"),
    };
    let mut out = BytesMut::new();
    RespParser.encode(answer, &mut out).expect("encoding does not fail");
    assert_eq!(&out[..], b"*2\r\n$1\r\nq\r\n$5\r\nhello\r\n");
}

#[test]
fn blpop_times_out_with_the_null_array() {
    let mut redis = Redis::new();
    let waiting = match handle_command(frame(&["BLPOP", "q", "1"]), 1, &mut redis, at(0)) {
        Handled::Suspended { waiting, .. } => waiting,
        Handled::Reply(_) => panic!("there was nothing to pop"),
    };
    match resume_command(waiting, WaitOutcome::TimedOut, &mut redis, at(1_000)) {
        Handled::Reply(Some(r)) => assert_eq!(r, RedisValueRef::NullArray),
        _ => panic!("the wait is over"),
    }
}

#[test]
fn xadd_twice_with_the_same_identifier_on_the_wire() {
    let mut redis = Redis::new();
    let xadd: &[u8] = b"*5\r\n$4\r\nXADD\r\n$1\r\ns\r\n$3\r\n1-1\r\n$1\r\nf\r\n$1\r\nv\r\n";
    assert_eq!(wire(&mut redis, 1, 0, xadd), b"$3\r\n1-1\r\n".to_vec());
    assert_eq!(
        wire(&mut redis, 1, 0, xadd),
        b"-ERR The ID specified in XADD is equal or smaller than the target stream top item\r\n".to_vec()
    );
}

#[test]
fn a_transaction_on_the_wire() {
    let mut redis = Redis::new();
    assert_eq!(wire(&mut redis, 1, 0, b"*1\r\n$5\r\nMULTI\r\n"), b"+OK\r\n".to_vec());
    assert_eq!(
        wire(&mut redis, 1, 0, b"*3\r\n$3\r\nSET\r\n$1\r\na\r\n$1\r\n1\r\n"),
        b"+QUEUED\r\n".to_vec()
    );
    assert_eq!(wire(&mut redis, 1, 0, b"*2\r\n$4\r\nINCR\r\n$1\r\na\r\n"), b"+QUEUED\r\n".to_vec());
    // Nothing has run yet, as another client sees.
    assert_eq!(wire(&mut redis, 2, 0, b"*2\r\n$3\r\nGET\r\n$1\r\na\r\n"), b"$-1\r\n".to_vec());
    assert_eq!(wire(&mut redis, 1, 0, b"*1\r\n$4\r\nEXEC\r\n"), b"*2\r\n+OK\r\n:2\r\n".to_vec());
    assert_eq!(wire(&mut redis, 2, 0, b"*2\r\n$3\r\nGET\r\n$1\r\na\r\n"), b"$1\r\n2\r\n".to_vec());
}

#[test]
fn transaction_control() {
    let mut redis = Redis::new();
    assert_eq!(reply(&mut redis, 1, 0, &["EXEC"]), error("ERR EXEC without MULTI"));
    assert_eq!(reply(&mut redis, 1, 0, &["DISCARD"]), error("ERR DISCARD without MULTI"));
    assert_eq!(reply(&mut redis, 1, 0, &["MULTI"]), simple("OK"));
    assert_eq!(reply(&mut redis, 1, 0, &["MULTI"]), error("ERR MULTI calls can not be nested"));
    assert_eq!(reply(&mut redis, 1, 0, &["SET", "k", "v"]), simple("QUEUED"));
    assert_eq!(reply(&mut redis, 1, 0, &["DISCARD"]), simple("OK"));
    assert_eq!(reply(&mut redis, 1, 0, &["GET", "k"]), RedisValueRef::NullBulkString);
    assert_eq!(reply(&mut redis, 1, 0, &["MULTI"]), simple("OK"));
    assert_eq!(reply(&mut redis, 1, 0, &["EXEC"]), RedisValueRef::Array(vec![]));
}

#[test]
fn a_transaction_that_waits_goes_on_after_the_wait() {
    let mut redis = Redis::new();
    reply(&mut redis, 1, 0, &["MULTI"]);
    reply(&mut redis, 1, 0, &["PING"]);
    reply(&mut redis, 1, 0, &["BLPOP", "q", "5"]);
    reply(&mut redis, 1, 0, &["LLEN", "q"]);
    let (waiting, mut rx) = match handle_command(frame(&["EXEC"]), 1, &mut redis, at(0)) {
        Handled::Suspended { waiting, rx } => (waiting, rx),
        Handled::Reply(_) => panic!("the pop has to wait"),
    };
    assert!(waiting.in_exec);
    assert_eq!(waiting.rest.len(), 1);
    assert_eq!(waiting.results, vec![simple("PONG")]);
    reply(&mut redis, 2, 10, &["RPUSH", "q", "a", "b"]);
    assert_eq!(rx.try_recv(), Ok(true));
    match resume_command(waiting, WaitOutcome::Signalled, &mut redis, at(20)) {
        Handled::Reply(Some(r)) => assert_eq!(
            r,
            RedisValueRef::Array(vec![
                simple("PONG"),
                RedisValueRef::Array(vec![bulk("q"), bulk("a")]),
                RedisValueRef::Int(1),
            ])
        ),
        _ => panic!("the transaction is done"),
    }
}

#[test]
fn frames_that_are_no_commands() {
    let mut redis = Redis::new();
    match handle_command(simple("PING"), 1, &mut redis, at(0)) {
        Handled::Reply(Some(r)) => assert_eq!(r, error("ERR expected array")),
        _ => panic!("an error is due"),
    }
    match handle_command(RedisValueRef::Array(vec![]), 1, &mut redis, at(0)) {
        Handled::Reply(Some(r)) => assert_eq!(r, error("ERR expected array of bulk strings")),
        _ => panic!("an error is due"),
    }
    assert_eq!(reply(&mut redis, 1, 0, &["NOPE"]), error("ERR unknown command"));
    assert_eq!(reply(&mut redis, 1, 0, &["GET"]), error("ERR wrong number of arguments"));
    assert_eq!(
        reply(&mut redis, 1, 0, &["LRANGE", "k", "a", "b"]),
        error("ERR value is not an integer or out of range")
    );
}

#[test]
fn echo_type_and_replconf() {
    let mut redis = Redis::new();
    assert_eq!(reply(&mut redis, 1, 0, &["ECHO", "hey"]), simple("hey"));
    assert_eq!(reply(&mut redis, 1, 0, &["REPLCONF", "capa", "psync2"]), simple("OK"));
    assert_eq!(reply(&mut redis, 1, 0, &["TYPE", "k"]), simple("none"));
    reply(&mut redis, 1, 0, &["SET", "k", "v"]);
    reply(&mut redis, 1, 0, &["XADD", "s", "1-0", "f", "v"]);
    reply(&mut redis, 1, 0, &["RPUSH", "l", "x"]);
    assert_eq!(reply(&mut redis, 1, 0, &["TYPE", "k"]), simple("string"));
    assert_eq!(reply(&mut redis, 1, 0, &["TYPE", "s"]), simple("stream"));
    assert_eq!(reply(&mut redis, 1, 0, &["TYPE", "l"]), simple("none"));
}

#[test]
fn list_commands() {
    let mut redis = Redis::new();
    assert_eq!(reply(&mut redis, 1, 0, &["RPUSH", "k"]), RedisValueRef::Int(0));
    assert_eq!(reply(&mut redis, 1, 0, &["RPUSH", "k", "a", "b", "c"]), RedisValueRef::Int(3));
    assert_eq!(reply(&mut redis, 1, 0, &["LPUSH", "k", "x", "y"]), RedisValueRef::Int(5));
    assert_eq!(reply(&mut redis, 1, 0, &["LLEN", "k"]), RedisValueRef::Int(5));
    assert_eq!(
        reply(&mut redis, 1, 0, &["LRANGE", "k", "0", "-1"]),
        RedisValueRef::Array(vec![bulk("y"), bulk("x"), bulk("a"), bulk("b"), bulk("c")])
    );
    assert_eq!(reply(&mut redis, 1, 0, &["LRANGE", "k", "-1", "-1"]), RedisValueRef::Array(vec![bulk("c")]));
    assert_eq!(reply(&mut redis, 1, 0, &["LRANGE", "k", "3", "1"]), RedisValueRef::Array(vec![]));
    // A single element comes by itself.
    assert_eq!(reply(&mut redis, 1, 0, &["LPOP", "k"]), bulk("y"));
    assert_eq!(
        reply(&mut redis, 1, 0, &["LPOP", "k", "2"]),
        RedisValueRef::Array(vec![bulk("x"), bulk("a")])
    );
    assert_eq!(reply(&mut redis, 1, 0, &["LPOP", "k", "0"]), RedisValueRef::Array(vec![]));
    assert_eq!(reply(&mut redis, 1, 0, &["LPOP", "missing"]), RedisValueRef::NullBulkString);
    assert_eq!(
        reply(&mut redis, 1, 0, &["BLPOP", "k", "0"]),
        RedisValueRef::Array(vec![bulk("k"), bulk("b")])
    );
}

#[test]
fn incr_and_keys() {
    let mut redis = Redis::new();
    for n in 1..=5 {
        assert_eq!(reply(&mut redis, 1, 0, &["INCR", "n"]), RedisValueRef::Int(n));
    }
    reply(&mut redis, 1, 0, &["SET", "word", "abc"]);
    assert_eq!(
        reply(&mut redis, 1, 0, &["INCR", "word"]),
        error("ERR value is not an integer or out of range")
    );
    reply(&mut redis, 1, 0, &["SET", "gone", "x", "PX", "10"]);
    let mut keys = match reply(&mut redis, 1, 10, &["KEYS", "*"]) {
        RedisValueRef::Array(items) => items,
        other => panic!("not an array: {:?}", other),
    };
    keys.sort_by_key(|k| match k {
        RedisValueRef::BulkString(s) => s.to_vec(),
        _ => Vec::new(),
    });
    assert_eq!(keys, vec![bulk("n"), bulk("word")]);
}

#[test]
fn stream_commands() {
    let mut redis = Redis::new();
    assert_eq!(reply(&mut redis, 1, 5, &["XADD", "s", "*", "a", "1"]), bulk("1000005-0"));
    assert_eq!(reply(&mut redis, 1, 5, &["XADD", "s", "*", "a", "2"]), bulk("1000005-1"));
    let first = RedisValueRef::Array(vec![
        bulk("1000005-0"),
        RedisValueRef::Array(vec![bulk("a"), bulk("1")]),
    ]);
    let second = RedisValueRef::Array(vec![
        bulk("1000005-1"),
        RedisValueRef::Array(vec![bulk("a"), bulk("2")]),
    ]);
    assert_eq!(
        reply(&mut redis, 1, 5, &["XRANGE", "s", "-", "+"]),
        RedisValueRef::Array(vec![first, second.clone()])
    );
    assert_eq!(
        reply(&mut redis, 1, 5, &["XREAD", "streams", "s", "1000005-0"]),
        RedisValueRef::Array(vec![RedisValueRef::Array(vec![
            bulk("s"),
            RedisValueRef::Array(vec![second]),
        ])])
    );
    assert_eq!(reply(&mut redis, 1, 5, &["XREAD", "streams", "s", "$"]), RedisValueRef::Array(vec![]));
}

#[test]
fn blocking_xread_waits_for_the_first_stream() {
    let mut redis = Redis::new();
    let (waiting, mut rx) =
        match handle_command(frame(&["XREAD", "block", "0", "streams", "s", "$"]), 1, &mut redis, at(0)) {
            Handled::Suspended { waiting, rx } => (waiting, rx),
            Handled::Reply(_) => panic!("there was nothing to read"),
        };
    match &waiting.on {
        Pending::Streams { kv, timeout } => {
            assert_eq!(kv.len(), 2);
            assert_eq!(*timeout, 86_400_000);
        }
        Pending::List { .. } => panic!("the client waits for streams"),
    }
    reply(&mut redis, 2, 0, &["XADD", "s", "1-0", "f", "v"]);
    assert_eq!(rx.try_recv(), Ok(true));
    // `$` is read again when the client goes on, so the new entry is not behind it.
    match resume_command(waiting, WaitOutcome::Signalled, &mut redis, at(1)) {
        Handled::Reply(Some(r)) => assert_eq!(r, RedisValueRef::NullArray),
        _ => panic!("the read is done"),
    }
}

#[test]
fn config_get() {
    let mut redis = Redis::new();
    redis.kv.set_path("/data".to_string(), "dump.rdb".to_string());
    assert_eq!(
        reply(&mut redis, 1, 0, &["CONFIG", "GET", "dir"]),
        RedisValueRef::Array(vec![bulk("dir"), bulk("/data")])
    );
    assert_eq!(
        reply(&mut redis, 1, 0, &["CONFIG", "GET", "dbfilename"]),
        RedisValueRef::Array(vec![bulk("dbfilename"), bulk("dump.rdb")])
    );
    assert_eq!(reply(&mut redis, 1, 0, &["CONFIG", "GET", "port"]), RedisValueRef::NullArray);
}

#[test]
fn control_commands_run_as_commands_give_no_reply() {
    let mut redis = Redis::new();
    for cmd in [Command::MULTI, Command::EXEC, Command::DISCARD] {
        assert!(matches!(execute_command(cmd, &mut redis, at(0)), Executed::Reply(None)));
    }
    assert!(matches!(
        execute_command(Command::Ping, &mut redis, at(0)),
        Executed::Reply(Some(_))
    ));
}

const REPORT: &str = "# Replication\nrole:master\nconnected_slaves:0\nmaster_replid:8371b4fb1155b71f4a04d3e1bc3e18c4a990aeeb\nmaster_repl_offset:0\nsecond_repl_offset:0\nrepl_backlog_active:0\nrepl_backlog_size:0\nrepl_backlog_first_byte_offset:0\nrepl_backlog_histlen:0\n";

#[test]
fn info_reports_replication() {
    let mut redis = Redis::new();
    assert_eq!(reply(&mut redis, 1, 0, &["INFO", "replication"]), bulk(REPORT));
}

#[test]
fn info_follows_its_setters() {
    let mut info = Info::new();
    assert_eq!(info.master_replid(), "8371b4fb1155b71f4a04d3e1bc3e18c4a990aeeb");
    assert_eq!(info.master_repl_offset(), 0);
    info.set_role("slave");
    info.add_slave();
    info.add_slave();
    info.remove_slave();
    info.set_master_replid("abc");
    info.set_master_repl_offset(77);
    assert_eq!(info.master_replid(), "abc");
    assert_eq!(info.master_repl_offset(), 77);
    assert_eq!(
        info.serialize(),
        bulk("# Replication\nrole:slave\nconnected_slaves:1\nmaster_replid:abc\nmaster_repl_offset:77\nsecond_repl_offset:0\nrepl_backlog_active:0\nrepl_backlog_size:0\nrepl_backlog_first_byte_offset:0\nrepl_backlog_histlen:0\n")
    );
    info.remove_slave();
    info.remove_slave();
    assert!(String::from_utf8_lossy(match &info.serialize() {
        RedisValueRef::BulkString(text) => text,
        _ => panic!("not a bulk string"),
    })
    .contains("connected_slaves:0\n"));
}

#[test]
fn replicas_are_counted() {
    let mut redis = Redis::new();
    let (first, _keep_first) = tokio::sync::mpsc::channel::<Vec<u8>>(1);
    let (second, _keep_second) = tokio::sync::mpsc::channel::<Vec<u8>>(1);
    redis.add_slave(first);
    redis.add_slave(second);
    assert_eq!(redis.connected_slaves.len(), 2);
    redis.remove_dead_slave(5);
    assert_eq!(redis.connected_slaves.len(), 2);
    redis.remove_dead_slave(0);
    assert_eq!(redis.connected_slaves.len(), 1);
    assert!(String::from_utf8_lossy(match &redis.info.serialize() {
        RedisValueRef::BulkString(text) => text,
        _ => panic!("not a bulk string"),
    })
    .contains("connected_slaves:1\n"));
}

#[test]
fn psync_is_recognised() {
    assert!(is_psync_command(&frame(&["PSYNC", "?", "-1"])));
    assert!(is_psync_command(&frame(&["psync"])));
    assert!(!is_psync_command(&frame(&["PING"])));
    assert!(!is_psync_command(&RedisValueRef::Array(vec![])));
    assert!(!is_psync_command(&RedisValueRef::Array(vec![simple("PSYNC")])));
    assert!(!is_psync_command(&bulk("PSYNC")));
}

#[test]
fn a_reading_keeps_the_monotonic_part() {
    let c = Clock::reading(42);
    assert_eq!(c.monotonic_ms, 42);
    assert!(c.unix_ms > 1_577_836_800_000);
}

#[test]
fn the_default_store_is_empty() {
    let mut kv = redis_core::key_value::KeyValue::default();
    assert_eq!(kv.get_entry(&b("k"), 0), None);
}

#[test]
fn a_new_engine_is_empty() {
    let mut redis = Redis::new();
    assert!(redis.connected_slaves.is_empty());
    assert_eq!(redis.kv.get_dir(), "");
    assert_eq!(redis.kv.get_filename(), "");
    assert!(!redis.tr.in_transaction(1));
    assert_eq!(reply(&mut redis, 1, 0, &["KEYS", "*"]), RedisValueRef::Array(vec![]));
    assert_eq!(reply(&mut redis, 1, 0, &["LLEN", "k"]), RedisValueRef::Int(0));
    assert_eq!(reply(&mut redis, 1, 0, &["XRANGE", "s", "-", "+"]), RedisValueRef::Array(vec![]));
    assert_eq!(redis.info.master_repl_offset(), 0);
}
