use bytes::Bytes;
use bytes::BytesMut;
use redis_core::resp::encode_into;
use redis_core::resp::RESPError;
use redis_core::resp::RedisValueRef;
use redis_core::resp::RespParser;

fn bulk(s: &str) -> RedisValueRef {
    RedisValueRef::BulkString(Bytes::from(s.to_string()))
}

fn simple(s: &str) -> RedisValueRef {
    RedisValueRef::String(Bytes::from(s.to_string()))
}

fn decode_all(input: &[u8]) -> (Result<Option<RedisValueRef>, RESPError>, Vec<u8>) {
    let mut buf = BytesMut::from(input);
    let got = RespParser.decode(&mut buf);
    (got, buf.to_vec())
}

fn encode(value: RedisValueRef) -> Vec<u8> {
    let mut dst = BytesMut::new();
    assert_eq!(RespParser.encode(value, &mut dst), Ok(()));
    dst.to_vec()
}

fn round_trip(value: RedisValueRef) {
    let bytes = encode(value.clone());
    let (got, rest) = decode_all(&bytes);
    assert_eq!(got, Ok(Some(value)));
    assert!(rest.is_empty());
}

#[test]
fn decode_ping_frame() {
    let (got, rest) = decode_all(b"*1\r\n$4\r\nPING\r\n");
    assert_eq!(got, Ok(Some(RedisValueRef::Array(vec![bulk("PING")]))));
    assert!(rest.is_empty());
}

#[test]
fn decode_simple_string_and_error() {
    assert_eq!(decode_all(b"+OK\r\n").0, Ok(Some(simple("OK"))));
    assert_eq!(
        decode_all(b"-ERR no\r\n").0,
        Ok(Some(RedisValueRef::Error(Bytes::from("ERR no"))))
    );
}

#[test]
fn decode_integers() {
    assert_eq!(decode_all(b":0\r\n").0, Ok(Some(RedisValueRef::Int(0))));
    assert_eq!(decode_all(b":-12\r\n").0, Ok(Some(RedisValueRef::Int(-12))));
    assert_eq!(decode_all(b":+7\r\n").0, Ok(Some(RedisValueRef::Int(7))));
    assert_eq!(
        decode_all(b":9223372036854775807\r\n").0,
        Ok(Some(RedisValueRef::Int(i64::MAX)))
    );
    assert_eq!(
        decode_all(b":-9223372036854775808\r\n").0,
        Ok(Some(RedisValueRef::Int(i64::MIN)))
    );
}

#[test]
fn decode_nulls() {
    assert_eq!(decode_all(b"$-1\r\n").0, Ok(Some(RedisValueRef::NullBulkString)));
    assert_eq!(decode_all(b"*-1\r\n").0, Ok(Some(RedisValueRef::NullArray)));
}

#[test]
fn decode_bulk_string_may_hold_line_ends() {
    let (got, rest) = decode_all(b"$5\r\na\r\nb\r\r\nrest");
    assert_eq!(got, Ok(Some(RedisValueRef::BulkString(Bytes::from(&b"a\r\nb\r"[..])))));
    assert_eq!(rest, b"rest".to_vec());
}

#[test]
fn decode_empty_bulk_string_and_empty_array() {
    assert_eq!(decode_all(b"$0\r\n\r\n").0, Ok(Some(bulk(""))));
    assert_eq!(decode_all(b"*0\r\n").0, Ok(Some(RedisValueRef::Array(vec![]))));
}

#[test]
fn decode_nested_arrays() {
    let (got, rest) = decode_all(b"*2\r\n*2\r\n:1\r\n+a\r\n*1\r\n$1\r\nx\r\n");
    assert_eq!(
        got,
        Ok(Some(RedisValueRef::Array(vec![
            RedisValueRef::Array(vec![RedisValueRef::Int(1), simple("a")]),
            RedisValueRef::Array(vec![bulk("x")]),
        ])))
    );
    assert!(rest.is_empty());
}

#[test]
fn decode_takes_one_frame_and_leaves_the_rest() {
    let mut buf = BytesMut::from(&b"+a\r\n+b\r\n"[..]);
    assert_eq!(RespParser.decode(&mut buf), Ok(Some(simple("a"))));
    assert_eq!(&buf[..], b"+b\r\n");
    assert_eq!(RespParser.decode(&mut buf), Ok(Some(simple("b"))));
    assert!(buf.is_empty());
    assert_eq!(RespParser.decode(&mut buf), Ok(None));
}

#[test]
fn decode_needs_more_for_every_proper_prefix() {
    let whole: &[u8] = b"*2\r\n$3\r\nGET\r\n$1\r\nk\r\n";
    for cut in 0..whole.len() {
        let (got, rest) = decode_all(&whole[..cut]);
        assert_eq!(got, Ok(None), "prefix of {} bytes", cut);
        assert_eq!(rest, whole[..cut].to_vec());
    }
    assert_eq!(
        decode_all(whole).0,
        Ok(Some(RedisValueRef::Array(vec![bulk("GET"), bulk("k")])))
    );
}

#[test]
fn decode_is_restartable() {
    let mut buf = BytesMut::new();
    buf.extend_from_slice(b"$5\r\nhel");
    assert_eq!(RespParser.decode(&mut buf), Ok(None));
    buf.extend_from_slice(b"lo\r");
    assert_eq!(RespParser.decode(&mut buf), Ok(None));
    buf.extend_from_slice(b"\n");
    assert_eq!(RespParser.decode(&mut buf), Ok(Some(bulk("hello"))));
}

#[test]
fn decode_unknown_sigil() {
    let (got, rest) = decode_all(b"?1\r\n");
    assert_eq!(got, Err(RESPError::UnknownStartingByte));
    assert_eq!(rest, b"?1\r\n".to_vec());
}

#[test]
fn decode_malformed_integer() {
    assert_eq!(decode_all(b":12a\r\n").0, Err(RESPError::IntParseFailure));
    assert_eq!(decode_all(b":\r\n").0, Err(RESPError::IntParseFailure));
    assert_eq!(decode_all(b":9223372036854775808\r\n").0, Err(RESPError::IntParseFailure));
    assert_eq!(decode_all(b"$x\r\n").0, Err(RESPError::IntParseFailure));
}

#[test]
fn decode_bad_sizes() {
    assert_eq!(decode_all(b"$-2\r\n").0, Err(RESPError::BadBulkStringSize(-2)));
    assert_eq!(decode_all(b"*-7\r\n").0, Err(RESPError::BadArraySize(-7)));
}

#[test]
fn decode_error_inside_array() {
    assert_eq!(decode_all(b"*2\r\n:1\r\n!\r\n").0, Err(RESPError::UnknownStartingByte));
}

#[test]
fn decode_huge_announced_sizes_wait_for_more() {
    assert_eq!(decode_all(b"$9223372036854775807\r\nabc").0, Ok(None));
    assert_eq!(decode_all(b"*9223372036854775807\r\n:1\r\n").0, Ok(None));
}

#[test]
fn encode_each_kind() {
    assert_eq!(encode(simple("PONG")), b"+PONG\r\n".to_vec());
    assert_eq!(encode(RedisValueRef::Error(Bytes::from("ERR x"))), b"-ERR x\r\n".to_vec());
    assert_eq!(encode(RedisValueRef::Int(-42)), b":-42\r\n".to_vec());
    assert_eq!(encode(RedisValueRef::Int(0)), b":0\r\n".to_vec());
    assert_eq!(encode(bulk("v")), b"$1\r\nv\r\n".to_vec());
    assert_eq!(encode(bulk("")), b"$0\r\n\r\n".to_vec());
    assert_eq!(encode(RedisValueRef::NullBulkString), b"$-1\r\n".to_vec());
    assert_eq!(encode(RedisValueRef::NullArray), b"*-1\r\n".to_vec());
    assert_eq!(
        encode(RedisValueRef::Array(vec![simple("OK"), RedisValueRef::Int(2)])),
        b"*2\r\n+OK\r\n:2\r\n".to_vec()
    );
    assert_eq!(encode(RedisValueRef::Array(vec![])), b"*0\r\n".to_vec());
}

#[test]
fn encode_appends_to_what_is_there() {
    let mut dst = BytesMut::from(&b"+a\r\n"[..]);
    assert_eq!(RespParser.encode(RedisValueRef::Int(5), &mut dst), Ok(()));
    assert_eq!(&dst[..], b"+a\r\n:5\r\n");
}

#[test]
fn encode_into_a_vector() {
    let mut out = vec![1u8];
    encode_into(&bulk("ab"), &mut out);
    assert_eq!(out, b"\x01$2\r\nab\r\n".to_vec());
}

#[test]
fn decode_undoes_encode() {
    round_trip(simple("hello"));
    round_trip(simple(""));
    round_trip(simple("line\nfeed"));
    round_trip(RedisValueRef::Error(Bytes::from("ERR wrong")));
    round_trip(RedisValueRef::Int(i64::MIN));
    round_trip(RedisValueRef::Int(i64::MAX));
    round_trip(RedisValueRef::Int(-1));
    round_trip(bulk("with\r\nline end"));
    round_trip(RedisValueRef::BulkString(Bytes::from(vec![0u8, 255, 13, 10, 36])));
    round_trip(RedisValueRef::NullArray);
    round_trip(RedisValueRef::NullBulkString);
    round_trip(RedisValueRef::Array(vec![]));
    round_trip(RedisValueRef::Array(vec![
        bulk("SET"),
        RedisValueRef::Array(vec![RedisValueRef::NullArray, RedisValueRef::Int(7)]),
        RedisValueRef::NullBulkString,
        simple("x"),
    ]));
}

#[test]
fn clone_keeps_the_value() {
    let value = RedisValueRef::Array(vec![bulk("a"), RedisValueRef::Int(1), simple("b")]);
    assert_eq!(value.clone(), value);
}
