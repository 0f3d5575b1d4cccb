use redis_core::rdb::le_number;
use redis_core::rdb::parse_rdb;
use redis_core::rdb::Database;
use redis_core::rdb::Expiry;
use redis_core::rdb::FormatFault;
use redis_core::rdb::KeyValuePair;
use redis_core::rdb::RdbError;
use redis_core::rdb::RdbFile;
use redis_core::rdb::RdbParser;
use redis_core::rdb::Value;

fn with(body: &[u8]) -> Vec<u8> {
    let mut data = b"REDIS0011".to_vec();
    data.extend_from_slice(body);
    data
}

fn pair(key: &str, value: &str, expire: Option<Expiry>) -> KeyValuePair {
    KeyValuePair {
        key: key.as_bytes().to_vec(),
        value: Value::String(value.as_bytes().to_vec()),
        expire,
    }
}

fn entries_of(body: &[u8]) -> Result<Vec<KeyValuePair>, RdbError> {
    let mut data = vec![0xFE, 0x00];
    data.extend_from_slice(body);
    parse_rdb(&with(&data)).map(|file| file.databases[0].entries.clone())
}

#[test]
fn parse_an_empty_snapshot() {
    let data = hex::decode(
        "524544495330303131fa0972656469732d76657205372e322e30fa0a72656469732d62697473c040fa056374696d65c26d08bc65fa08757365642d6d656dc2b0c41000fa08616f662d62617365c000fff06e3bfec0ff5aa2",
    )
    .expect("the text is hexadecimal");
    let file = parse_rdb(&data).expect("the data is a snapshot");
    assert_eq!(file.version, b"0011".to_vec());
    assert_eq!(
        file.metadata,
        vec![
            (b"redis-ver".to_vec(), b"7.2.0".to_vec()),
            (b"redis-bits".to_vec(), b"64".to_vec()),
            (b"ctime".to_vec(), b"1706821741".to_vec()),
            (b"used-mem".to_vec(), b"1098928".to_vec()),
            (b"aof-base".to_vec(), b"0".to_vec()),
        ]
    );
    assert!(file.databases.is_empty());
}

#[test]
fn parse_a_database_with_entries() {
    let mut body = vec![0xFE, 0x03, 0xFB, 0x02, 0x01];
    body.extend_from_slice(&[0x00, 1, b'a', 2, b'x', b'y']);
    body.push(0xFC);
    body.extend_from_slice(&1_700_000_000_123u64.to_le_bytes());
    body.extend_from_slice(&[0x00, 1, b'b', 0]);
    body.push(0xFD);
    body.extend_from_slice(&1_700_000_000u32.to_le_bytes());
    body.extend_from_slice(&[0x00, 1, b'c', 1, b'z']);
    body.extend_from_slice(&[0xFE, 0x01, 0x00, 1, b'd', 1, b'w']);
    body.push(0xFF);
    body.extend_from_slice(&[1, 2, 3, 4, 5, 6, 7, 8]);
    assert_eq!(
        parse_rdb(&with(&body)),
        Ok(RdbFile {
            version: b"0011".to_vec(),
            metadata: vec![],
            databases: vec![
                Database {
                    index: 3,
                    key_value_hash_size: 2,
                    expire_hash_size: 1,
                    entries: vec![
                        pair("a", "xy", None),
                        pair("b", "", Some(Expiry::Milliseconds(1_700_000_000_123))),
                        pair("c", "z", Some(Expiry::Seconds(1_700_000_000))),
                    ],
                },
                Database {
                    index: 1,
                    key_value_hash_size: 0,
                    expire_hash_size: 0,
                    entries: vec![pair("d", "w", None)],
                },
            ],
        })
    );
}

#[test]
fn the_end_marker_and_the_checksum_may_be_missing() {
    let body = [0xFE, 0x00, 0x00, 1, b'a', 1, b'b'];
    let file = parse_rdb(&with(&body)).expect("the data is a snapshot");
    assert_eq!(file.databases.len(), 1);
    assert_eq!(file.databases[0].entries, vec![pair("a", "b", None)]);
    let file = parse_rdb(&with(&[0xFF])).expect("the data is a snapshot");
    assert!(file.databases.is_empty());
}

#[test]
fn string_lengths() {
    // 6 bits
    assert_eq!(entries_of(&[0x00, 1, b'k', 0]), Ok(vec![pair("k", "", None)]));
    // 14 bits: 0x40 | 1, 0x00 is 256
    let long = "v".repeat(256);
    let mut body = vec![0x00, 1, b'k', 0x41, 0x00];
    body.extend_from_slice(long.as_bytes());
    assert_eq!(entries_of(&body), Ok(vec![pair("k", &long, None)]));
    // 14 bits: a length of 192 is a length, not a special encoding
    let longer = "w".repeat(192);
    let mut body = vec![0x00, 1, b'k', 0x40, 0xC0];
    body.extend_from_slice(longer.as_bytes());
    assert_eq!(entries_of(&body), Ok(vec![pair("k", &longer, None)]));
    // 32 bits, most significant byte first
    let mut body = vec![0x00, 1, b'k', 0x80, 0, 0, 1, 2];
    let big = "x".repeat(258);
    body.extend_from_slice(big.as_bytes());
    assert_eq!(entries_of(&body), Ok(vec![pair("k", &big, None)]));
}

#[test]
fn integers_as_strings() {
    assert_eq!(entries_of(&[0x00, 1, b'k', 0xC0, 200]), Ok(vec![pair("k", "200", None)]));
    assert_eq!(entries_of(&[0x00, 1, b'k', 0xC1, 0x34, 0x12]), Ok(vec![pair("k", "4660", None)]));
    assert_eq!(
        entries_of(&[0x00, 1, b'k', 0xC2, 0x78, 0x56, 0x34, 0x12]),
        Ok(vec![pair("k", "305419896", None)])
    );
    assert_eq!(entries_of(&[0x00, 0xC0, 5, 1, b'v']), Ok(vec![pair("5", "v", None)]));
}

#[test]
fn numbers_least_significant_byte_first() {
    assert_eq!(le_number(&[]), 0);
    assert_eq!(le_number(&[7]), 7);
    assert_eq!(le_number(&[0x34, 0x12]), 0x1234);
    assert_eq!(le_number(&[1, 2, 3, 4, 5, 6, 7, 8]), 0x0807060504030201);
    assert_eq!(le_number(&[255; 8]), u64::MAX);
}

#[test]
fn invalid_header() {
    assert_eq!(parse_rdb(b"RADIS0011\xFF"), Err(RdbError::InvalidHeader));
    assert_eq!(parse_rdb(b"redis0011\xFF"), Err(RdbError::InvalidHeader));
}

#[test]
fn unexpected_end() {
    assert_eq!(parse_rdb(b""), Err(RdbError::UnexpectedEof));
    assert_eq!(parse_rdb(b"REDIS001"), Err(RdbError::UnexpectedEof));
    // no metadata, database or end marker behind the header
    assert_eq!(parse_rdb(b"REDIS0011"), Err(RdbError::UnexpectedEof));
    assert_eq!(parse_rdb(&with(&[0xFA, 3, b'a'])), Err(RdbError::UnexpectedEof));
    assert_eq!(parse_rdb(&with(&[0xFE])), Err(RdbError::UnexpectedEof));
    assert_eq!(parse_rdb(&with(&[0xFE, 0])), Err(RdbError::UnexpectedEof));
    assert_eq!(entries_of(&[0x00, 5, b'k']), Err(RdbError::UnexpectedEof));
    assert_eq!(entries_of(&[0x00, 1, b'k']), Err(RdbError::UnexpectedEof));
    assert_eq!(entries_of(&[0xFC, 1, 2, 3]), Err(RdbError::UnexpectedEof));
    assert_eq!(entries_of(&[0xFD, 1, 2, 3, 4]), Err(RdbError::UnexpectedEof));
    assert_eq!(entries_of(&[0x00, 0x41]), Err(RdbError::UnexpectedEof));
    assert_eq!(entries_of(&[0x00, 0x80, 0, 0]), Err(RdbError::UnexpectedEof));
    assert_eq!(entries_of(&[0x00, 0xC1, 0]), Err(RdbError::UnexpectedEof));
}

#[test]
fn unexpected_bytes() {
    assert_eq!(
        parse_rdb(&with(&[0x42])),
        Err(RdbError::InvalidFormat(FormatFault::UnexpectedMetadataByte(0x42)))
    );
    assert_eq!(
        parse_rdb(&with(&[0xFE, 0, 0xFA])),
        Err(RdbError::InvalidFormat(FormatFault::UnexpectedEntryByte(0xFA)))
    );
    assert_eq!(
        parse_rdb(&with(&[0xFE, 0, 0x0F])),
        Err(RdbError::InvalidFormat(FormatFault::UnexpectedEntryByte(0x0F)))
    );
}

#[test]
fn unsupported_values_and_encodings() {
    assert_eq!(
        entries_of(&[0x01, 1, b'k', 1, b'v']),
        Err(RdbError::InvalidFormat(FormatFault::UnsupportedValueType(1)))
    );
    assert_eq!(
        entries_of(&[0xFD, 1, 0, 0, 0, 0x0E, 1, b'k']),
        Err(RdbError::InvalidFormat(FormatFault::UnsupportedValueType(0x0E)))
    );
    assert_eq!(
        entries_of(&[0x00, 1, b'k', 0xC3, 1, 1, b'x']),
        Err(RdbError::InvalidFormat(FormatFault::CompressedString))
    );
    assert_eq!(
        entries_of(&[0x00, 0xC4, 1]),
        Err(RdbError::InvalidFormat(FormatFault::UnsupportedStringEncoding(0xC4)))
    );
}

#[test]
fn errors_in_words() {
    assert_eq!(RdbError::IoError.message(), "IO error");
    assert_eq!(RdbError::InvalidHeader.message(), "Invalid RDB header");
    assert_eq!(RdbError::UnexpectedEof.message(), "Unexpected end of file");
    assert_eq!(
        RdbError::InvalidFormat(FormatFault::CompressedString).message(),
        "Invalid format: LZF-compressed strings not supported"
    );
    assert_eq!(
        RdbError::InvalidFormat(FormatFault::UnsupportedValueType(2)).message(),
        "Invalid format: Unsupported value type"
    );
}

#[test]
fn the_parser_reads_from_the_start() {
    let data = with(&[0xFF]);
    let mut parser = RdbParser::new(&data);
    assert!(parser.parse().is_ok());
}
