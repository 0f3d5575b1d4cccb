use redis_core::decimal::parse_i64;
use redis_core::decimal::parse_u64;
use redis_core::decimal::push_i64;
use redis_core::decimal::push_u64;

fn text_i64(i: i64) -> Vec<u8> {
    let mut out = Vec::new();
    push_i64(&mut out, i);
    out
}

fn text_u64(n: u64) -> Vec<u8> {
    let mut out = Vec::new();
    push_u64(&mut out, n);
    out
}

#[test]
fn parse_i64_agrees_with_std() {
    let cases: [&str; 22] = [
        "0", "-0", "+0", "7", "-7", "+7", "007", "-007", "", "-", "+", "+-1", "--1", "1 ", " 1",
        "1_000", "12a", "9223372036854775807", "9223372036854775808", "-9223372036854775808",
        "-9223372036854775809", "99999999999999999999999",
    ];
    for case in cases {
        assert_eq!(parse_i64(case.as_bytes()), case.parse::<i64>().ok(), "{:?}", case);
    }
}

#[test]
fn parse_u64_agrees_with_std() {
    let cases: [&str; 14] = [
        "0", "+0", "-0", "-1", "42", "+42", "0042", "", "+", "4 2", "18446744073709551615",
        "18446744073709551616", "1e3", "0x10",
    ];
    for case in cases {
        assert_eq!(parse_u64(case.as_bytes()), case.parse::<u64>().ok(), "{:?}", case);
    }
}

#[test]
fn parse_rejects_bytes_that_are_no_text() {
    assert_eq!(parse_i64(&[0xff, 0x31]), None);
    assert_eq!(parse_u64(&[0x31, 0x80]), None);
}

#[test]
fn format_agrees_with_std() {
    for i in [0i64, 1, -1, 9, 10, -10, 12345, i64::MAX, i64::MIN, i64::MIN + 1] {
        assert_eq!(text_i64(i), i.to_string().into_bytes());
    }
    for n in [0u64, 5, 10, 99, 100, 1706821741, u64::MAX] {
        assert_eq!(text_u64(n), n.to_string().into_bytes());
    }
}

#[test]
fn format_appends() {
    let mut out = b"n=".to_vec();
    push_u64(&mut out, 30);
    push_i64(&mut out, -4);
    assert_eq!(out, b"n=30-4".to_vec());
}

#[test]
fn parse_undoes_format() {
    for i in [0i64, -1, 1, 1_000_000, i64::MAX, i64::MIN] {
        assert_eq!(parse_i64(&text_i64(i)), Some(i));
    }
    for n in [0u64, 1, u64::MAX] {
        assert_eq!(parse_u64(&text_u64(n)), Some(n));
    }
}
