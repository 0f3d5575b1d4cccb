//! The snapshot loader: reads the RDB file format into entries that seed the
//! key-value store.
//!
//! A file is the magic `REDIS` with four version bytes; metadata sections,
//! each `0xFA` with a name and a value; database sections, each `0xFE` with
//! its index, optionally `0xFB` with two table sizes, and its entries; and
//! `0xFF` with eight checksum bytes, which are read and not verified.

use crate::clock::Clock;
use crate::decimal::push_u64;
use crate::decimal::spec_format_u64;
use vstd::prelude::*;

verus! {

/// When an entry of a snapshot is to go: a point of Unix time.
#[derive(Debug, Clone, Copy, PartialEq, Eq, Structural)]
pub enum Expiry {
    Seconds(u32),
    Milliseconds(u64),
}

impl Expiry {
    /// The point of Unix time, in milliseconds.
    pub open spec fn unix_ms(&self) -> u64 {
        match self {
            Expiry::Seconds(secs) => (*secs * 1000) as u64,
            Expiry::Milliseconds(ms) => *ms,
        }
    }

    /// The deadline on the monotonic clock, for a point of time that still
    /// lies ahead; `None` for one that has passed.
    pub open spec fn spec_to_instant(&self, clock: Clock) -> Option<u64> {
        if self.unix_ms() <= clock.unix_ms {
            None
        } else {
            Some(clock.spec_deadline_at(self.unix_ms()))
        }
    }

    /// Turns the point of Unix time into a deadline on the monotonic clock,
    /// as far from `clock.monotonic_ms` as the point is from `clock.unix_ms`.
    /// A point that has passed gives `None`.
    pub fn to_instant(&self, clock: Clock) -> (deadline: Option<u64>)
        ensures
            deadline == self.spec_to_instant(clock),
    {
        let target: u64 = match self {
            Expiry::Seconds(secs) => (*secs as u64) * 1000,
            Expiry::Milliseconds(ms) => *ms,
        };
        if target <= clock.unix_ms {
            None
        } else {
            Some(clock.deadline_at(target))
        }
    }

    /// Whether the point of time has passed.
    pub fn is_expired(&self, clock: Clock) -> (gone: bool)
        ensures
            gone == (self.unix_ms() <= clock.unix_ms),
            gone == self.spec_to_instant(clock).is_none(),
    {
        self.to_instant(clock).is_none()
    }
}

/// The value of an entry. Strings are the one kind that is read.
#[derive(Debug, Clone, PartialEq, Eq)]
pub enum Value {
    String(Vec<u8>),
}

#[derive(Debug, Clone, PartialEq, Eq)]
pub struct KeyValuePair {
    pub key: Vec<u8>,
    pub value: Value,
    pub expire: Option<Expiry>,
}

#[derive(Debug, Clone, PartialEq, Eq)]
pub struct Database {
    pub index: u64,
    pub key_value_hash_size: u64,
    pub expire_hash_size: u64,
    pub entries: Vec<KeyValuePair>,
}

#[derive(Debug, Clone, PartialEq, Eq)]
pub struct RdbFile {
    /// The four version bytes of the header.
    pub version: Vec<u8>,
    /// The metadata, names with values, in file order.
    pub metadata: Vec<(Vec<u8>, Vec<u8>)>,
    pub databases: Vec<Database>,
}

/// The mathematical value of a `KeyValuePair`.
pub struct PairView {
    pub key: Seq<u8>,
    pub value: Seq<u8>,
    pub expire: Option<Expiry>,
}

/// The mathematical value of a `Database`.
pub struct DatabaseView {
    pub index: u64,
    pub key_value_hash_size: u64,
    pub expire_hash_size: u64,
    pub entries: Seq<PairView>,
}

/// The mathematical value of an `RdbFile`.
pub struct RdbFileView {
    pub version: Seq<u8>,
    pub metadata: Seq<(Seq<u8>, Seq<u8>)>,
    pub databases: Seq<DatabaseView>,
}

impl KeyValuePair {
    pub open spec fn view(&self) -> PairView {
        PairView {
            key: self.key@,
            value: match self.value {
                Value::String(s) => s@,
            },
            expire: self.expire,
        }
    }
}

impl Database {
    pub open spec fn view(&self) -> DatabaseView {
        DatabaseView {
            index: self.index,
            key_value_hash_size: self.key_value_hash_size,
            expire_hash_size: self.expire_hash_size,
            entries: Seq::new(self.entries@.len(), |i: int| self.entries@[i]@),
        }
    }
}

impl RdbFile {
    pub open spec fn view(&self) -> RdbFileView {
        RdbFileView {
            version: self.version@,
            metadata: Seq::new(
                self.metadata@.len(),
                |i: int| (self.metadata@[i].0@, self.metadata@[i].1@),
            ),
            databases: Seq::new(self.databases@.len(), |i: int| self.databases@[i]@),
        }
    }
}

/// What is wrong with the form of a snapshot; the byte is the one that was
/// found.
#[derive(Debug, Clone, Copy, PartialEq, Eq, Structural)]
pub enum FormatFault {
    /// Where a metadata section, a database or the end was due.
    UnexpectedMetadataByte(u8),
    /// Where a database or the end was due.
    UnexpectedSectionByte(u8),
    /// Where an entry, a database or the end was due.
    UnexpectedEntryByte(u8),
    /// A value of a kind other than string.
    UnsupportedValueType(u8),
    /// A string in a special encoding that is not an integer.
    UnsupportedStringEncoding(u8),
    /// An LZF-compressed string.
    CompressedString,
}

/// Why a snapshot cannot be loaded.
#[derive(Debug, Clone, Copy, PartialEq, Eq, Structural)]
pub enum RdbError {
    /// The file could not be read.
    IoError,
    /// The file does not start with `REDIS`.
    InvalidHeader,
    InvalidFormat(FormatFault),
    /// The data ends in the middle of an item.
    UnexpectedEof,
}

/// The words for a fault of form.
pub open spec fn spec_fault_message(fault: FormatFault) -> Seq<char> {
    match fault {
        FormatFault::UnexpectedMetadataByte(_) => "Invalid format: Unexpected byte in metadata"@,
        FormatFault::UnexpectedSectionByte(_) => "Invalid format: Unexpected byte in database section"@,
        FormatFault::UnexpectedEntryByte(_) => "Invalid format: Unexpected byte in database"@,
        FormatFault::UnsupportedValueType(_) => "Invalid format: Unsupported value type"@,
        FormatFault::UnsupportedStringEncoding(_) => "Invalid format: Unsupported string encoding"@,
        FormatFault::CompressedString => "Invalid format: LZF-compressed strings not supported"@,
    }
}

/// The words for an error.
pub open spec fn spec_message(e: RdbError) -> Seq<char> {
    match e {
        RdbError::IoError => "IO error"@,
        RdbError::InvalidHeader => "Invalid RDB header"@,
        RdbError::UnexpectedEof => "Unexpected end of file"@,
        RdbError::InvalidFormat(fault) => spec_fault_message(fault),
    }
}

impl RdbError {
    /// The error in words.
    pub fn message(&self) -> (text: String)
        ensures
            text@ == spec_message(*self),
    {
        let words: &str = match self {
            RdbError::IoError => "IO error",
            RdbError::InvalidHeader => "Invalid RDB header",
            RdbError::UnexpectedEof => "Unexpected end of file",
            RdbError::InvalidFormat(fault) => match fault {
                FormatFault::UnexpectedMetadataByte(_) => "Invalid format: Unexpected byte in metadata",
                FormatFault::UnexpectedSectionByte(_) => "Invalid format: Unexpected byte in database section",
                FormatFault::UnexpectedEntryByte(_) => "Invalid format: Unexpected byte in database",
                FormatFault::UnsupportedValueType(_) => "Invalid format: Unsupported value type",
                FormatFault::UnsupportedStringEncoding(_) => "Invalid format: Unsupported string encoding",
                FormatFault::CompressedString => "Invalid format: LZF-compressed strings not supported",
            },
        };
        words.to_owned()
    }
}

/// An item read, and the position behind it; or why there is none.
pub type Read<T> = Result<(T, int), RdbError>;

pub open spec fn spec_byte(data: Seq<u8>, pos: int) -> Read<u8> {
    if 0 <= pos < data.len() {
        Ok((data[pos], pos + 1))
    } else {
        Err(RdbError::UnexpectedEof)
    }
}

pub open spec fn spec_take(data: Seq<u8>, pos: int, n: int) -> Read<Seq<u8>> {
    if 0 <= pos && 0 <= n && pos + n <= data.len() {
        Ok((data.subrange(pos, pos + n), pos + n))
    } else {
        Err(RdbError::UnexpectedEof)
    }
}

/// The number that up to eight bytes spell, least significant byte first.
pub open spec fn le_value(b: Seq<u8>) -> nat
    decreases b.len(),
{
    if b.len() == 0 {
        0
    } else {
        b[0] as nat + 256 * le_value(b.skip(1))
    }
}

/// The number that four bytes spell, most significant byte first.
pub open spec fn be32_value(b: Seq<u8>) -> nat {
    (b[0] * 0x100_0000 + b[1] * 0x1_0000 + b[2] * 0x100 + b[3]) as nat
}

/// A length. The two top bits of the first byte say how it is written: in
/// the other six bits; in those and the next byte; in the four bytes that
/// follow, most significant first. With both bits set the byte marks a
/// special encoding, and is itself the result.
pub open spec fn spec_length(data: Seq<u8>, pos: int) -> Read<u64> {
    match spec_byte(data, pos) {
        Ok((first, next)) => if first / 64 == 0 {
            Ok(((first % 64) as u64, next))
        } else if first / 64 == 1 {
            match spec_byte(data, next) {
                Ok((second, after)) => Ok((((first % 64) * 256 + second) as u64, after)),
                Err(e) => Err(e),
            }
        } else if first / 64 == 2 {
            match spec_take(data, next, 4) {
                Ok((four, after)) => Ok((be32_value(four) as u64, after)),
                Err(e) => Err(e),
            }
        } else {
            Ok((first as u64, next))
        },
        Err(e) => Err(e),
    }
}

/// A string: its length, then its bytes. In the special encodings `0xC0`,
/// `0xC1` and `0xC2` it is an integer of one, two or four bytes, least
/// significant first, and reads as the integer's decimal text; the other
/// special encodings are refused.
#[verifier::opaque]
pub open spec fn spec_string(data: Seq<u8>, pos: int) -> Read<Seq<u8>> {
    match spec_byte(data, pos) {
        Ok((first, next)) => if first / 64 == 3 {
            if first == 0xC0 || first == 0xC1 || first == 0xC2 {
                let width: int = if first == 0xC0 {
                    1
                } else if first == 0xC1 {
                    2
                } else {
                    4
                };
                match spec_take(data, next, width) {
                    Ok((raw, after)) => Ok((spec_format_u64(le_value(raw) as u64), after)),
                    Err(e) => Err(e),
                }
            } else if first == 0xC3 {
                Err(RdbError::InvalidFormat(FormatFault::CompressedString))
            } else {
                Err(RdbError::InvalidFormat(FormatFault::UnsupportedStringEncoding(first)))
            }
        } else {
            match spec_length(data, pos) {
                Ok((len, at)) => spec_take(data, at, len as int),
                Err(e) => Err(e),
            }
        },
        Err(e) => Err(e),
    }
}

/// An entry whose first byte, already read, is `first`: `0xFC` with a
/// deadline of eight bytes in milliseconds, `0xFD` with one of four bytes in
/// seconds, both least significant byte first and followed by the kind of
/// value; or the kind of value itself. Then the key and the value.
#[verifier::opaque]
pub open spec fn spec_entry(data: Seq<u8>, pos: int, first: u8) -> Read<PairView> {
    let head: Read<(Option<Expiry>, u8)> = if first == 0xFC {
        match spec_take(data, pos, 8) {
            Ok((raw, at)) => match spec_byte(data, at) {
                Ok((kind, after)) => Ok(
                    ((Some(Expiry::Milliseconds(le_value(raw) as u64)), kind), after),
                ),
                Err(e) => Err(e),
            },
            Err(e) => Err(e),
        }
    } else if first == 0xFD {
        match spec_take(data, pos, 4) {
            Ok((raw, at)) => match spec_byte(data, at) {
                Ok((kind, after)) => Ok(((Some(Expiry::Seconds(le_value(raw) as u32)), kind), after)),
                Err(e) => Err(e),
            },
            Err(e) => Err(e),
        }
    } else {
        Ok(((None, first), pos))
    };
    match head {
        Ok(((expire, kind), at)) => match spec_string(data, at) {
            Ok((key, after_key)) => if kind == 0 {
                match spec_string(data, after_key) {
                    Ok((value, end)) => Ok((PairView { key, value, expire }, end)),
                    Err(e) => Err(e),
                }
            } else {
                Err(RdbError::InvalidFormat(FormatFault::UnsupportedValueType(kind)))
            },
            Err(e) => Err(e),
        },
        Err(e) => Err(e),
    }
}

/// Puts what was read so far in front of what the rest gives.
pub open spec fn glue<T>(done: Seq<T>, rest: Read<Seq<T>>) -> Read<Seq<T>> {
    match rest {
        Ok((items, end)) => Ok((done + items, end)),
        Err(e) => Err(e),
    }
}

/// The entries of a database, up to the next database, the end marker or
/// the end of the data.
pub open spec fn spec_entries(data: Seq<u8>, pos: int) -> Read<Seq<PairView>>
    decreases data.len() - pos,
{
    if !(0 <= pos < data.len()) {
        Ok((Seq::empty(), pos))
    } else {
        let first = data[pos];
        if first == 0xFE || first == 0xFF {
            Ok((Seq::empty(), pos))
        } else if first == 0xFC || first == 0xFD || first <= 0x0E {
            match spec_entry(data, pos + 1, first) {
                Ok((entry, next)) => if pos < next <= data.len() {
                    glue(seq![entry], spec_entries(data, next))
                } else {
                    Err(RdbError::UnexpectedEof)
                },
                Err(e) => Err(e),
            }
        } else {
            Err(RdbError::InvalidFormat(FormatFault::UnexpectedEntryByte(first)))
        }
    }
}

/// A database, behind its `0xFE`: the index, the table sizes if `0xFB`
/// announces them, and the entries.
#[verifier::opaque]
pub open spec fn spec_database(data: Seq<u8>, pos: int) -> Read<DatabaseView> {
    match spec_length(data, pos) {
        Ok((index, at)) => match spec_byte(data, at) {
            Ok((mark, after)) => if mark == 0xFB {
                match spec_length(data, after) {
                    Ok((key_value_hash_size, at2)) => match spec_length(data, at2) {
                        Ok((expire_hash_size, at3)) => match spec_entries(data, at3) {
                            Ok((entries, end)) => Ok(
                                (
                                    DatabaseView {
                                        index,
                                        key_value_hash_size,
                                        expire_hash_size,
                                        entries,
                                    },
                                    end,
                                ),
                            ),
                            Err(e) => Err(e),
                        },
                        Err(e) => Err(e),
                    },
                    Err(e) => Err(e),
                }
            } else {
                match spec_entries(data, at) {
                    Ok((entries, end)) => Ok(
                        (
                            DatabaseView {
                                index,
                                key_value_hash_size: 0,
                                expire_hash_size: 0,
                                entries,
                            },
                            end,
                        ),
                    ),
                    Err(e) => Err(e),
                }
            },
            Err(e) => Err(e),
        },
        Err(e) => Err(e),
    }
}

/// The databases, up to the end marker or the end of the data.
pub open spec fn spec_databases(data: Seq<u8>, pos: int) -> Read<Seq<DatabaseView>>
    decreases data.len() - pos,
{
    if !(0 <= pos < data.len()) {
        Ok((Seq::empty(), pos))
    } else {
        let first = data[pos];
        if first == 0xFE {
            match spec_database(data, pos + 1) {
                Ok((db, next)) => if pos < next <= data.len() {
                    glue(seq![db], spec_databases(data, next))
                } else {
                    Err(RdbError::UnexpectedEof)
                },
                Err(e) => Err(e),
            }
        } else if first == 0xFF {
            Ok((Seq::empty(), pos + 1))
        } else {
            Err(RdbError::InvalidFormat(FormatFault::UnexpectedSectionByte(first)))
        }
    }
}

/// The metadata sections, up to the first database or the end marker.
pub open spec fn spec_metadata(data: Seq<u8>, pos: int) -> Read<Seq<(Seq<u8>, Seq<u8>)>>
    decreases data.len() - pos,
{
    match spec_byte(data, pos) {
        Ok((first, at)) => if first == 0xFA {
            match spec_string(data, at) {
                Ok((name, at2)) => match spec_string(data, at2) {
                    Ok((value, next)) => if pos < next <= data.len() {
                        glue(seq![(name, value)], spec_metadata(data, next))
                    } else {
                        Err(RdbError::UnexpectedEof)
                    },
                    Err(e) => Err(e),
                },
                Err(e) => Err(e),
            }
        } else if first == 0xFE || first == 0xFF {
            Ok((Seq::empty(), pos))
        } else {
            Err(RdbError::InvalidFormat(FormatFault::UnexpectedMetadataByte(first)))
        },
        Err(e) => Err(e),
    }
}

/// The magic of the header.
pub open spec fn magic() -> Seq<u8> {
    seq![82u8, 69u8, 68u8, 73u8, 83u8]
}

/// The header: the magic and four version bytes, which are the result.
pub open spec fn spec_header(data: Seq<u8>) -> Read<Seq<u8>> {
    match spec_take(data, 0, 9) {
        Ok((head, next)) => if head.take(5) == magic() {
            Ok((head.skip(5), next))
        } else {
            Err(RdbError::InvalidHeader)
        },
        Err(e) => Err(e),
    }
}

/// What a snapshot holds.
pub open spec fn spec_parse_rdb(data: Seq<u8>) -> Result<RdbFileView, RdbError> {
    match spec_header(data) {
        Ok((version, at)) => match spec_metadata(data, at) {
            Ok((metadata, at2)) => match spec_databases(data, at2) {
                Ok((databases, _)) => Ok(RdbFileView { version, metadata, databases }),
                Err(e) => Err(e),
            },
            Err(e) => Err(e),
        },
        Err(e) => Err(e),
    }
}


/// The greatest number that `k` bytes spell.
pub open spec fn cap(k: int) -> int {
    if k <= 0 {
        0
    } else if k == 1 {
        0xFF
    } else if k == 2 {
        0xFFFF
    } else if k == 3 {
        0xFF_FFFF
    } else if k == 4 {
        0xFFFF_FFFF
    } else if k == 5 {
        0xFF_FFFF_FFFF
    } else if k == 6 {
        0xFFFF_FFFF_FFFF
    } else if k == 7 {
        0xFF_FFFF_FFFF_FFFF
    } else {
        0xFFFF_FFFF_FFFF_FFFF
    }
}

/// The number that up to eight bytes spell, least significant byte first.
pub fn le_number(b: &[u8]) -> (n: u64)
    requires
        b@.len() <= 8,
    ensures
        n == le_value(b@),
        n <= cap(b@.len() as int),
{
    let mut acc: u64 = 0;
    let mut i: usize = b.len();
    proof {
        assert(b@.skip(i as int) =~= Seq::<u8>::empty());
    }
    while i > 0
        invariant
            i <= b@.len() <= 8,
            acc == le_value(b@.skip(i as int)),
            acc <= cap(b@.len() - i),
        decreases i,
    {
        i = i - 1;
        proof {
            let tail = b@.skip(i as int);
            assert(tail.skip(1) =~= b@.skip(i + 1));
            assert(tail[0] == b@[i as int]);
        }
        acc = acc * 256 + b[i] as u64;
    }
    proof {
        assert(b@.skip(0) =~= b@);
    }
    acc
}

/// A reader of snapshot data that keeps its place.
pub struct RdbParser<'a> {
    data: &'a [u8],
    pos: usize,
}

impl<'a> RdbParser<'a> {
    /// The place lies within the data. Every operation keeps it so.
    pub closed spec fn wf(&self) -> bool {
        self.pos <= self.data@.len()
    }

    /// The data that is read.
    pub closed spec fn input(&self) -> Seq<u8> {
        self.data@
    }

    /// The place of the next byte to read.
    pub closed spec fn position(&self) -> int {
        self.pos as int
    }

    /// Whether a step from `self` to `after` went as `expected` says: the
    /// data is the same; after success the place is behind the item read.
    pub open spec fn moved<T>(&self, after: &Self, expected: Read<T>) -> bool {
        &&& after.input() == self.input()
        &&& after.wf()
        &&& expected matches Ok((_, next)) ==> after.position() == next && self.position() <= next
    }

    pub fn new(reader: &'a [u8]) -> (parser: Self)
        ensures
            parser.wf(),
            parser.input() == reader@,
            parser.position() == 0,
    {
        RdbParser { data: reader, pos: 0 }
    }

    fn read_byte(&mut self) -> (r: Result<u8, RdbError>)
        requires
            old(self).wf(),
        ensures
            old(self).moved(final(self), spec_byte(old(self).input(), old(self).position())),
            match spec_byte(old(self).input(), old(self).position()) {
                Ok((b, _)) => r == Ok::<u8, RdbError>(b),
                Err(e) => r == Err::<u8, RdbError>(e),
            },
    {
        if self.pos < self.data.len() {
            let b = self.data[self.pos];
            assert(self.pos < self.data.len());
            self.pos = self.pos + 1;
            Ok(b)
        } else {
            Err(RdbError::UnexpectedEof)
        }
    }

    fn peek_byte(&self) -> (r: Result<u8, RdbError>)
        requires
            self.wf(),
        ensures
            match spec_byte(self.input(), self.position()) {
                Ok((b, _)) => r == Ok::<u8, RdbError>(b),
                Err(e) => r == Err::<u8, RdbError>(e),
            },
    {
        if self.pos < self.data.len() {
            Ok(self.data[self.pos])
        } else {
            Err(RdbError::UnexpectedEof)
        }
    }

    /// The next `n` bytes.
    fn take(&mut self, n: usize) -> (r: Result<&'a [u8], RdbError>)
        requires
            old(self).wf(),
        ensures
            old(self).moved(
                final(self),
                spec_take(old(self).input(), old(self).position(), n as int),
            ),
            match spec_take(old(self).input(), old(self).position(), n as int) {
                Ok((bytes, _)) => r matches Ok(slice) && slice@ == bytes,
                Err(e) => r matches Err(got) && got == e,
            },
    {
        if n <= self.data.len() - self.pos {
            let slice = vstd::slice::slice_subrange(self.data, self.pos, self.pos + n);
            self.pos = self.pos + n;
            Ok(slice)
        } else {
            Err(RdbError::UnexpectedEof)
        }
    }

    fn parse_length(&mut self) -> (r: Result<u64, RdbError>)
        requires
            old(self).wf(),
        ensures
            old(self).moved(final(self), spec_length(old(self).input(), old(self).position())),
            match spec_length(old(self).input(), old(self).position()) {
                Ok((len, _)) => r == Ok::<u64, RdbError>(len),
                Err(e) => r == Err::<u64, RdbError>(e),
            },
    {
        let first = self.read_byte()?;
        let kind = first / 64;
        if kind == 0 {
            Ok((first % 64) as u64)
        } else if kind == 1 {
            let second = self.read_byte()?;
            Ok(((first % 64) as u64) * 256 + second as u64)
        } else if kind == 2 {
            let four = self.take(4)?;
            Ok(
                (four[0] as u64) * 0x100_0000 + (four[1] as u64) * 0x1_0000 + (four[2] as u64)
                    * 0x100 + four[3] as u64,
            )
        } else {
            Ok(first as u64)
        }
    }

    fn parse_string(&mut self) -> (r: Result<Vec<u8>, RdbError>)
        requires
            old(self).wf(),
        ensures
            old(self).moved(final(self), spec_string(old(self).input(), old(self).position())),
            match spec_string(old(self).input(), old(self).position()) {
                Ok((text, _)) => r matches Ok(v) && v@ == text,
                Err(e) => r matches Err(got) && got == e,
            },
    {
        reveal(spec_string);
        let first = self.peek_byte()?;
        if first / 64 == 3 {
            assert(self.pos < self.data.len());
            self.pos = self.pos + 1;
            if first == 0xC0 || first == 0xC1 || first == 0xC2 {
                let width: usize = if first == 0xC0 {
                    1
                } else if first == 0xC1 {
                    2
                } else {
                    4
                };
                let raw = self.take(width)?;
                let mut text: Vec<u8> = Vec::new();
                push_u64(&mut text, le_number(raw));
                assert(text@ =~= spec_format_u64(le_value(raw@) as u64));
                Ok(text)
            } else if first == 0xC3 {
                Err(RdbError::InvalidFormat(FormatFault::CompressedString))
            } else {
                Err(RdbError::InvalidFormat(FormatFault::UnsupportedStringEncoding(first)))
            }
        } else {
            let len = self.parse_length()?;
            if len > usize::MAX as u64 {
                return Err(RdbError::UnexpectedEof);
            }
            let bytes = self.take(len as usize)?;
            Ok(vstd::slice::slice_to_vec(bytes))
        }
    }

    fn parse_key_value_pair(&mut self, first_byte: u8) -> (r: Result<KeyValuePair, RdbError>)
        requires
            old(self).wf(),
        ensures
            old(self).moved(
                final(self),
                spec_entry(old(self).input(), old(self).position(), first_byte),
            ),
            match spec_entry(old(self).input(), old(self).position(), first_byte) {
                Ok((entry, _)) => r matches Ok(pair) && pair@ == entry,
                Err(e) => r matches Err(got) && got == e,
            },
    {
        reveal(spec_entry);
        let mut expire: Option<Expiry> = None;
        let value_type = if first_byte == 0xFC {
            let raw = self.take(8)?;
            expire = Some(Expiry::Milliseconds(le_number(raw)));
            self.read_byte()?
        } else if first_byte == 0xFD {
            let raw = self.take(4)?;
            expire = Some(Expiry::Seconds(le_number(raw) as u32));
            self.read_byte()?
        } else {
            first_byte
        };
        let key = self.parse_string()?;
        if value_type != 0 {
            return Err(RdbError::InvalidFormat(FormatFault::UnsupportedValueType(value_type)));
        }
        let value = self.parse_string()?;
        Ok(KeyValuePair { key, value: Value::String(value), expire })
    }

    /// The entries of a database.
    fn parse_entries(&mut self) -> (r: Result<Vec<KeyValuePair>, RdbError>)
        requires
            old(self).wf(),
        ensures
            old(self).moved(final(self), spec_entries(old(self).input(), old(self).position())),
            match spec_entries(old(self).input(), old(self).position()) {
                Ok((entries, _)) => r matches Ok(v) && Seq::new(v@.len(), |i: int| v@[i]@)
                    == entries,
                Err(e) => r matches Err(got) && got == e,
            },
    {
        let mut entries: Vec<KeyValuePair> = Vec::new();
        let ghost data = self.data@;
        let ghost start = self.pos as int;
        proof {
            let done = Seq::new(entries@.len(), |i: int| entries@[i]@);
            match spec_entries(data, start) {
                Ok((items, end)) => {
                    assert(done + items =~= items);
                },
                Err(_) => {},
            }
        }
        loop
            invariant
                self.wf(),
                self.data@ == data,
                data == old(self).data@,
                start == old(self).pos,
                start <= self.pos,
                spec_entries(data, start) == glue(
                    Seq::new(entries@.len(), |i: int| entries@[i]@),
                    spec_entries(data, self.pos as int),
                ),
            decreases data.len() - self.pos,
        {
            let ghost done = Seq::new(entries@.len(), |i: int| entries@[i]@);
            let ghost here = self.pos as int;
            let byte = match self.peek_byte() {
                Ok(b) => b,
                Err(_) => {
                    proof {
                        assert(done + Seq::<PairView>::empty() =~= done);
                    }
                    return Ok(entries);
                },
            };
            if byte == 0xFE || byte == 0xFF {
                proof {
                    assert(done + Seq::<PairView>::empty() =~= done);
                }
                return Ok(entries);
            }
            if !(byte == 0xFC || byte == 0xFD || byte <= 0x0E) {
                return Err(RdbError::InvalidFormat(FormatFault::UnexpectedEntryByte(byte)));
            }
            assert(self.pos < self.data.len());
            self.pos = self.pos + 1;
            let entry = self.parse_key_value_pair(byte)?;
            proof {
                let rest = spec_entries(data, self.pos as int);
                assert(spec_entries(data, here) == glue(seq![entry@], rest));
            }
            entries.push(entry);
            proof {
                let now = Seq::new(entries@.len(), |i: int| entries@[i]@);
                assert(now =~= done + seq![entry@]);
                match spec_entries(data, self.pos as int) {
                    Ok((items, end)) => {
                        assert(done + (seq![entry@] + items) =~= now + items);
                    },
                    Err(_) => {},
                }
            }
        }
    }

    fn parse_database(&mut self) -> (r: Result<Database, RdbError>)
        requires
            old(self).wf(),
        ensures
            old(self).moved(final(self), spec_database(old(self).input(), old(self).position())),
            match spec_database(old(self).input(), old(self).position()) {
                Ok((db, _)) => r matches Ok(d) && d@ == db,
                Err(e) => r matches Err(got) && got == e,
            },
    {
        reveal(spec_database);
        let index = self.parse_length()?;
        let mut key_value_hash_size: u64 = 0;
        let mut expire_hash_size: u64 = 0;
        let mark = self.peek_byte()?;
        if mark == 0xFB {
            assert(self.pos < self.data.len());
            self.pos = self.pos + 1;
            key_value_hash_size = self.parse_length()?;
            expire_hash_size = self.parse_length()?;
        }
        let entries = self.parse_entries()?;
        Ok(Database { index, key_value_hash_size, expire_hash_size, entries })
    }

    fn parse_databases(&mut self) -> (r: Result<Vec<Database>, RdbError>)
        requires
            old(self).wf(),
        ensures
            old(self).moved(final(self), spec_databases(old(self).input(), old(self).position())),
            match spec_databases(old(self).input(), old(self).position()) {
                Ok((dbs, _)) => r matches Ok(v) && Seq::new(v@.len(), |i: int| v@[i]@) == dbs,
                Err(e) => r matches Err(got) && got == e,
            },
    {
        let mut databases: Vec<Database> = Vec::new();
        let ghost data = self.data@;
        let ghost start = self.pos as int;
        proof {
            match spec_databases(data, start) {
                Ok((items, end)) => {
                    assert(Seq::new(databases@.len(), |i: int| databases@[i]@) + items =~= items);
                },
                Err(_) => {},
            }
        }
        loop
            invariant
                self.wf(),
                self.data@ == data,
                data == old(self).data@,
                start == old(self).pos,
                start <= self.pos,
                spec_databases(data, start) == glue(
                    Seq::new(databases@.len(), |i: int| databases@[i]@),
                    spec_databases(data, self.pos as int),
                ),
            decreases data.len() - self.pos,
        {
            let ghost done = Seq::new(databases@.len(), |i: int| databases@[i]@);
            let ghost here = self.pos as int;
            let byte = match self.peek_byte() {
                Ok(b) => b,
                Err(_) => {
                    proof {
                        assert(done + Seq::<DatabaseView>::empty() =~= done);
                    }
                    return Ok(databases);
                },
            };
            assert(self.pos < self.data.len());
            self.pos = self.pos + 1;
            if byte == 0xFF {
                proof {
                    assert(done + Seq::<DatabaseView>::empty() =~= done);
                }
                return Ok(databases);
            }
            if byte != 0xFE {
                return Err(RdbError::InvalidFormat(FormatFault::UnexpectedSectionByte(byte)));
            }
            let db = self.parse_database()?;
            proof {
                let rest = spec_databases(data, self.pos as int);
                assert(spec_databases(data, here) == glue(seq![db@], rest));
            }
            databases.push(db);
            proof {
                let now = Seq::new(databases@.len(), |i: int| databases@[i]@);
                assert(now =~= done + seq![db@]);
                match spec_databases(data, self.pos as int) {
                    Ok((items, end)) => {
                        assert(done + (seq![db@] + items) =~= now + items);
                    },
                    Err(_) => {},
                }
            }
        }
    }

    fn parse_metadata(&mut self) -> (r: Result<Vec<(Vec<u8>, Vec<u8>)>, RdbError>)
        requires
            old(self).wf(),
        ensures
            old(self).moved(final(self), spec_metadata(old(self).input(), old(self).position())),
            match spec_metadata(old(self).input(), old(self).position()) {
                Ok((pairs, _)) => r matches Ok(v) && Seq::new(
                    v@.len(),
                    |i: int| (v@[i].0@, v@[i].1@),
                ) == pairs,
                Err(e) => r matches Err(got) && got == e,
            },
    {
        let mut metadata: Vec<(Vec<u8>, Vec<u8>)> = Vec::new();
        let ghost data = self.data@;
        let ghost start = self.pos as int;
        proof {
            match spec_metadata(data, start) {
                Ok((items, end)) => {
                    assert(Seq::new(metadata@.len(), |i: int| (metadata@[i].0@, metadata@[i].1@))
                        + items =~= items);
                },
                Err(_) => {},
            }
        }
        loop
            invariant
                self.wf(),
                self.data@ == data,
                data == old(self).data@,
                start == old(self).pos,
                start <= self.pos,
                spec_metadata(data, start) == glue(
                    Seq::new(metadata@.len(), |i: int| (metadata@[i].0@, metadata@[i].1@)),
                    spec_metadata(data, self.pos as int),
                ),
            decreases data.len() - self.pos,
        {
            let ghost done = Seq::new(metadata@.len(), |i: int| (metadata@[i].0@, metadata@[i].1@));
            let ghost here = self.pos as int;
            let byte = self.peek_byte()?;
            if byte == 0xFE || byte == 0xFF {
                proof {
                    assert(done + Seq::<(Seq<u8>, Seq<u8>)>::empty() =~= done);
                }
                return Ok(metadata);
            }
            if byte != 0xFA {
                return Err(RdbError::InvalidFormat(FormatFault::UnexpectedMetadataByte(byte)));
            }
            assert(self.pos < self.data.len());
            self.pos = self.pos + 1;
            let name = self.parse_string()?;
            let value = self.parse_string()?;
            proof {
                let rest = spec_metadata(data, self.pos as int);
                assert(spec_metadata(data, here) == glue(seq![(name@, value@)], rest));
            }
            let ghost pair = (name@, value@);
            metadata.push((name, value));
            proof {
                let now = Seq::new(metadata@.len(), |i: int| (metadata@[i].0@, metadata@[i].1@));
                assert(now =~= done + seq![pair]);
                match spec_metadata(data, self.pos as int) {
                    Ok((items, end)) => {
                        assert(done + (seq![pair] + items) =~= now + items);
                    },
                    Err(_) => {},
                }
            }
        }
    }

    fn parse_header(&mut self) -> (r: Result<Vec<u8>, RdbError>)
        requires
            old(self).wf(),
            old(self).position() == 0,
        ensures
            old(self).moved(final(self), spec_header(old(self).input())),
            match spec_header(old(self).input()) {
                Ok((version, _)) => r matches Ok(v) && v@ == version,
                Err(e) => r matches Err(got) && got == e,
            },
    {
        let head = self.take(9)?;
        if head[0] != 82 || head[1] != 69 || head[2] != 68 || head[3] != 73 || head[4] != 83 {
            assert(head@.take(5)[0] == head@[0]);
            assert(head@.take(5)[1] == head@[1]);
            assert(head@.take(5)[2] == head@[2]);
            assert(head@.take(5)[3] == head@[3]);
            assert(head@.take(5)[4] == head@[4]);
            return Err(RdbError::InvalidHeader);
        }
        assert(head@.take(5) =~= magic());
        let version = vstd::slice::slice_to_vec(vstd::slice::slice_subrange(head, 5, 9));
        assert(version@ =~= head@.skip(5));
        Ok(version)
    }

    /// Reads the whole snapshot: header, metadata and databases.
    pub fn parse(&mut self) -> (r: Result<RdbFile, RdbError>)
        requires
            old(self).wf(),
            old(self).position() == 0,
        ensures
            final(self).wf(),
            final(self).input() == old(self).input(),
            match spec_parse_rdb(old(self).input()) {
                Ok(file) => r matches Ok(f) && f@ == file,
                Err(e) => r matches Err(got) && got == e,
            },
    {
        let version = self.parse_header()?;
        let metadata = self.parse_metadata()?;
        let databases = self.parse_databases()?;
        Ok(RdbFile { version, metadata, databases })
    }
}

/// Reads a snapshot from its bytes.
pub fn parse_rdb(data: &[u8]) -> (r: Result<RdbFile, RdbError>)
    ensures
        match spec_parse_rdb(data@) {
            Ok(file) => r matches Ok(f) && f@ == file,
            Err(e) => r matches Err(got) && got == e,
        },
{
    let mut parser = RdbParser::new(data);
    parser.parse()
}

} // verus!
