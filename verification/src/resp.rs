//! The wire codec: frames of the RESP protocol, read from a growing buffer and
//! written back to one.

use crate::buffer::append;
use crate::buffer::bytes_of;
use crate::buffer::contents;
use crate::buffer::find_byte;
use crate::buffer::first_index_of;
use crate::buffer::freeze;
use crate::buffer::lemma_first_index_at;
use crate::buffer::lemma_first_index_of;
use crate::buffer::pending;
use crate::buffer::pending_of;
use crate::buffer::split_front;
use crate::buffer::sub_bytes;
use crate::decimal::parse_i64;
use crate::decimal::push_i64;
use crate::decimal::push_u64;
use crate::decimal::spec_format_i64;
use crate::decimal::spec_format_nat;
use crate::decimal::lemma_format_i64_plain;
use crate::decimal::lemma_format_nat;
use crate::decimal::lemma_parse_format_i64;
use crate::decimal::spec_parse_i64;
use bytes::Bytes;
use bytes::BytesMut;
use vstd::prelude::*;

verus! {

pub type Value = Bytes;

pub type Key = Bytes;

/// A protocol value, as the engine hands it around.
#[derive(Debug, PartialEq, Eq)]
pub enum RedisValueRef {
    String(Bytes),
    Error(Bytes),
    Int(i64),
    Array(Vec<RedisValueRef>),
    BulkString(Bytes),
    NullArray,
    NullBulkString,
}

/// The mathematical value that a `RedisValueRef` stands for.
pub enum Resp {
    String(Seq<u8>),
    Error(Seq<u8>),
    Int(i64),
    Array(Seq<Resp>),
    BulkString(Seq<u8>),
    NullArray,
    NullBulkString,
}

impl RedisValueRef {
    pub open spec fn view(&self) -> Resp
        decreases self,
    {
        match self {
            RedisValueRef::String(b) => Resp::String(contents(*b)),
            RedisValueRef::Error(b) => Resp::Error(contents(*b)),
            RedisValueRef::Int(i) => Resp::Int(*i),
            RedisValueRef::Array(v) => Resp::Array(
                Seq::new(
                    v.len() as nat,
                    |i: int|
                        if 0 <= i < v.len() {
                            v[i].view()
                        } else {
                            Resp::NullArray
                        },
                ),
            ),
            RedisValueRef::BulkString(b) => Resp::BulkString(contents(*b)),
            RedisValueRef::NullArray => Resp::NullArray,
            RedisValueRef::NullBulkString => Resp::NullBulkString,
        }
    }
}

/// The views of a run of values, one for one.
pub open spec fn views(v: Seq<RedisValueRef>) -> Seq<Resp> {
    Seq::new(v.len(), |i: int| v[i]@)
}

pub proof fn lemma_array_view(v: Vec<RedisValueRef>)
    ensures
        RedisValueRef::Array(v)@ == Resp::Array(views(v@)),
{
    reveal_with_fuel(RedisValueRef::view, 2);
    assert(RedisValueRef::Array(v)@->Array_0 =~= views(v@));
}

impl Clone for RedisValueRef {
    /// A copy that shares the byte buffers of this value.
    fn clone(&self) -> (res: Self)
        ensures
            res@ == self@,
        decreases self,
    {
        match self {
            RedisValueRef::String(b) => RedisValueRef::String(b.clone()),
            RedisValueRef::Error(b) => RedisValueRef::Error(b.clone()),
            RedisValueRef::Int(i) => RedisValueRef::Int(*i),
            RedisValueRef::Array(v) => {
                let mut items: Vec<RedisValueRef> = Vec::new();
                let mut i: usize = 0;
                while i < v.len()
                    invariant
                        *self == RedisValueRef::Array(*v),
                        i <= v.len(),
                        items.len() == i,
                        forall|j: int| 0 <= j < i ==> items[j]@ == v[j]@,
                    decreases v.len() - i,
                {
                    assert(self->Array_0 == *v);
                    assert(decreases_to!(self => self->Array_0));
                    assert(decreases_to!(self => v[i as int]));
                    let item = v[i].clone();
                    items.push(item);
                    i = i + 1;
                }
                proof {
                    lemma_array_view(items);
                    lemma_array_view(*v);
                    assert(views(items@) =~= views(v@));
                }
                RedisValueRef::Array(items)
            },
            RedisValueRef::BulkString(b) => RedisValueRef::BulkString(b.clone()),
            RedisValueRef::NullArray => RedisValueRef::NullArray,
            RedisValueRef::NullBulkString => RedisValueRef::NullBulkString,
        }
    }
}

/// Why a buffer cannot be decoded.
#[derive(Debug, Clone, Copy, PartialEq, Eq, Structural)]
pub enum RESPError {
    UnknownStartingByte,
    IntParseFailure,
    BadBulkStringSize(i64),
    BadArraySize(i64),
}

pub open spec fn cr() -> u8 {
    13
}

pub open spec fn crlf() -> Seq<u8> {
    seq![13u8, 10u8]
}

/// The bytes that the encoder writes for a value.
pub open spec fn spec_encode(v: Resp) -> Seq<u8>
    decreases v, 0nat,
{
    match v {
        Resp::String(s) => seq![43u8] + s + crlf(),
        Resp::Error(s) => seq![45u8] + s + crlf(),
        Resp::Int(i) => seq![58u8] + spec_format_i64(i) + crlf(),
        Resp::BulkString(s) => seq![36u8] + spec_format_nat(s.len()) + crlf() + s + crlf(),
        Resp::Array(a) => seq![42u8] + spec_format_nat(a.len()) + crlf() + spec_encode_from(a, 0),
        Resp::NullBulkString => seq![36u8, 45u8, 49u8, 13u8, 10u8],
        Resp::NullArray => seq![42u8, 45u8, 49u8, 13u8, 10u8],
    }
}

/// The encodings of `a[i..]`, one after the other.
pub open spec fn spec_encode_from(a: Seq<Resp>, i: nat) -> Seq<u8>
    decreases a, a.len() - i,
{
    if i >= a.len() {
        Seq::empty()
    } else {
        spec_encode(a[i as int]) + spec_encode_from(a, i + 1)
    }
}

/// What a decoder makes of a buffer from a position on.
pub enum Parsed<T> {
    /// The buffer ends before the item does.
    Incomplete,
    /// The bytes cannot start an item.
    Invalid(RESPError),
    /// An item, and the position just behind it.
    Complete(T, int),
}

/// The line that starts at `pos`: where its carriage return stands, and where
/// the next item starts (one byte after the carriage return is skipped).
pub open spec fn spec_word(buf: Seq<u8>, pos: int) -> Option<(int, int)> {
    if 0 <= pos < buf.len() {
        match first_index_of(buf.skip(pos), cr()) {
            Some(e) => if pos + e + 1 < buf.len() {
                Some((pos + e, pos + e + 2))
            } else {
                None
            },
            None => None,
        }
    } else {
        None
    }
}

/// The integer written on the line that starts at `pos`.
pub open spec fn spec_int(buf: Seq<u8>, pos: int) -> Parsed<i64> {
    match spec_word(buf, pos) {
        Some((end, next)) => match spec_parse_i64(buf.subrange(pos, end)) {
            Some(i) => Parsed::Complete(i, next),
            None => Parsed::Invalid(RESPError::IntParseFailure),
        },
        None => Parsed::Incomplete,
    }
}

/// The value that starts at `pos`, by the grammar of the protocol.
pub open spec fn spec_parse(buf: Seq<u8>, pos: int) -> Parsed<Resp>
    decreases buf.len() - pos, 0nat,
{
    if !(0 <= pos < buf.len()) {
        Parsed::Incomplete
    } else if buf[pos] == 43 {
        match spec_word(buf, pos + 1) {
            Some((end, next)) => Parsed::Complete(Resp::String(buf.subrange(pos + 1, end)), next),
            None => Parsed::Incomplete,
        }
    } else if buf[pos] == 45 {
        match spec_word(buf, pos + 1) {
            Some((end, next)) => Parsed::Complete(Resp::Error(buf.subrange(pos + 1, end)), next),
            None => Parsed::Incomplete,
        }
    } else if buf[pos] == 58 {
        match spec_int(buf, pos + 1) {
            Parsed::Complete(i, next) => Parsed::Complete(Resp::Int(i), next),
            Parsed::Invalid(e) => Parsed::Invalid(e),
            Parsed::Incomplete => Parsed::Incomplete,
        }
    } else if buf[pos] == 36 {
        match spec_int(buf, pos + 1) {
            Parsed::Complete(size, next) => if size == -1 {
                Parsed::Complete(Resp::NullBulkString, next)
            } else if size < 0 {
                Parsed::Invalid(RESPError::BadBulkStringSize(size))
            } else if buf.len() < next + size + 2 {
                Parsed::Incomplete
            } else {
                Parsed::Complete(
                    Resp::BulkString(buf.subrange(next, next + size)),
                    next + size + 2,
                )
            },
            Parsed::Invalid(e) => Parsed::Invalid(e),
            Parsed::Incomplete => Parsed::Incomplete,
        }
    } else if buf[pos] == 42 {
        match spec_int(buf, pos + 1) {
            Parsed::Complete(count, next) => if count == -1 {
                Parsed::Complete(Resp::NullArray, next)
            } else if count < 0 {
                Parsed::Invalid(RESPError::BadArraySize(count))
            } else if !(pos < next <= buf.len()) {
                Parsed::Incomplete
            } else {
                as_array(spec_parse_items(buf, next, count as nat))
            },
            Parsed::Invalid(e) => Parsed::Invalid(e),
            Parsed::Incomplete => Parsed::Incomplete,
        }
    } else {
        Parsed::Invalid(RESPError::UnknownStartingByte)
    }
}

/// The items of an array, made into the array.
pub open spec fn as_array(items: Parsed<Seq<Resp>>) -> Parsed<Resp> {
    match items {
        Parsed::Complete(items, end) => Parsed::Complete(Resp::Array(items), end),
        Parsed::Invalid(e) => Parsed::Invalid(e),
        Parsed::Incomplete => Parsed::Incomplete,
    }
}

/// `count` values in a row, the first at `pos`.
pub open spec fn spec_parse_items(buf: Seq<u8>, pos: int, count: nat) -> Parsed<Seq<Resp>>
    decreases buf.len() - pos, count + 1,
{
    if count == 0 {
        Parsed::Complete(Seq::empty(), pos)
    } else {
        match spec_parse(buf, pos) {
            Parsed::Complete(first, next) => if !(pos < next <= buf.len()) {
                Parsed::Incomplete
            } else {
                match spec_parse_items(buf, next, (count - 1) as nat) {
                    Parsed::Complete(rest, end) => Parsed::Complete(seq![first] + rest, end),
                    Parsed::Invalid(e) => Parsed::Invalid(e),
                    Parsed::Incomplete => Parsed::Incomplete,
                }
            },
            Parsed::Invalid(e) => Parsed::Invalid(e),
            Parsed::Incomplete => Parsed::Incomplete,
        }
    }
}


/// A part of the buffer, by the positions of its first byte and of the byte
/// behind its last.
pub struct BufSplit(pub usize, pub usize);

/// A value read from a buffer, its byte strings still given as positions.
pub enum RedisBufSplit {
    String(BufSplit),
    Error(BufSplit),
    Int(i64),
    Array(Vec<RedisBufSplit>),
    BulkString(BufSplit),
    NullArray,
    NullBulkString,
}

impl BufSplit {
    pub open spec fn within(&self, limit: int) -> bool {
        self.0 <= self.1 <= limit
    }

    pub open spec fn resolve(&self, buf: Seq<u8>) -> Seq<u8> {
        buf.subrange(self.0 as int, self.1 as int)
    }

    fn as_bytes(&self, buf: &Bytes) -> (b: Bytes)
        requires
            self.within(contents(*buf).len() as int),
        ensures
            contents(b) == self.resolve(contents(*buf)),
    {
        sub_bytes(buf, self.0, self.1)
    }
}

impl RedisBufSplit {
    /// Every part lies in `buf[..limit]`.
    pub open spec fn within(&self, limit: int) -> bool
        decreases self,
    {
        match self {
            RedisBufSplit::String(b) => b.within(limit),
            RedisBufSplit::Error(b) => b.within(limit),
            RedisBufSplit::BulkString(b) => b.within(limit),
            RedisBufSplit::Array(v) => forall|i: int|
                0 <= i < v.len() ==> (#[trigger] v[i]).within(limit),
            _ => true,
        }
    }

    /// The value, once the parts are read from `buf`.
    pub open spec fn resolve(&self, buf: Seq<u8>) -> Resp
        decreases self,
    {
        match self {
            RedisBufSplit::String(b) => Resp::String(b.resolve(buf)),
            RedisBufSplit::Error(b) => Resp::Error(b.resolve(buf)),
            RedisBufSplit::BulkString(b) => Resp::BulkString(b.resolve(buf)),
            RedisBufSplit::Int(i) => Resp::Int(*i),
            RedisBufSplit::Array(v) => Resp::Array(
                Seq::new(
                    v.len() as nat,
                    |i: int|
                        if 0 <= i < v.len() {
                            v[i].resolve(buf)
                        } else {
                            Resp::NullArray
                        },
                ),
            ),
            RedisBufSplit::NullArray => Resp::NullArray,
            RedisBufSplit::NullBulkString => Resp::NullBulkString,
        }
    }

    /// A value that lies in the first `limit` bytes reads the same from any
    /// buffer that starts with those bytes.
    pub proof fn lemma_resolve_prefix(&self, buf: Seq<u8>, limit: int)
        requires
            self.within(limit),
            0 <= limit <= buf.len(),
        ensures
            self.resolve(buf.take(limit)) == self.resolve(buf),
        decreases self,
    {
        reveal_with_fuel(RedisBufSplit::resolve, 2);
        match self {
            RedisBufSplit::String(b) => {
                assert(b.resolve(buf.take(limit)) =~= b.resolve(buf));
            },
            RedisBufSplit::Error(b) => {
                assert(b.resolve(buf.take(limit)) =~= b.resolve(buf));
            },
            RedisBufSplit::BulkString(b) => {
                assert(b.resolve(buf.take(limit)) =~= b.resolve(buf));
            },
            RedisBufSplit::Array(v) => {
                assert forall|i: int| 0 <= i < v.len() implies (#[trigger] v[i]).resolve(
                    buf.take(limit),
                ) == v[i].resolve(buf) by {
                    v[i].lemma_resolve_prefix(buf, limit);
                }
                assert(self.resolve(buf.take(limit))->Array_0 =~= self.resolve(buf)->Array_0);
            },
            _ => {},
        }
    }

    /// Turns the positions into handles on `buf`, without copying a byte.
    fn redis_value(&self, buf: &Bytes) -> (value: RedisValueRef)
        requires
            self.within(contents(*buf).len() as int),
        ensures
            value@ == self.resolve(contents(*buf)),
        decreases self,
    {
        match self {
            RedisBufSplit::String(b) => RedisValueRef::String(b.as_bytes(buf)),
            RedisBufSplit::Error(b) => RedisValueRef::Error(b.as_bytes(buf)),
            RedisBufSplit::BulkString(b) => RedisValueRef::BulkString(b.as_bytes(buf)),
            RedisBufSplit::Int(i) => RedisValueRef::Int(*i),
            RedisBufSplit::Array(v) => {
                let mut items: Vec<RedisValueRef> = Vec::new();
                let mut i: usize = 0;
                while i < v.len()
                    invariant
                        *self == RedisBufSplit::Array(*v),
                        self.within(contents(*buf).len() as int),
                        i <= v.len(),
                        items.len() == i,
                        forall|j: int| 0 <= j < i ==> items[j]@ == v[j].resolve(contents(*buf)),
                    decreases v.len() - i,
                {
                    assert(self->Array_0 == *v);
                    assert(decreases_to!(self => self->Array_0));
                    assert(decreases_to!(self => v[i as int]));
                    assert(v[i as int].within(contents(*buf).len() as int));
                    let item = v[i].redis_value(buf);
                    items.push(item);
                    i = i + 1;
                }
                proof {
                    lemma_array_view(items);
                    reveal_with_fuel(RedisBufSplit::resolve, 2);
                    assert(views(items@) =~= self.resolve(contents(*buf))->Array_0);
                }
                RedisValueRef::Array(items)
            },
            RedisBufSplit::NullArray => RedisValueRef::NullArray,
            RedisBufSplit::NullBulkString => RedisValueRef::NullBulkString,
        }
    }
}

/// Whether `r` is what the grammar gives for the item at `pos`: nothing yet,
/// an error, or the position behind the item and the item, which lies before
/// that position.
pub open spec fn matches_parsed(
    r: Result<Option<(usize, RedisBufSplit)>, RESPError>,
    p: Parsed<Resp>,
    pos: int,
    buf: Seq<u8>,
) -> bool {
    match p {
        Parsed::Incomplete => r == Ok::<Option<(usize, RedisBufSplit)>, RESPError>(None),
        Parsed::Invalid(e) => r == Err::<Option<(usize, RedisBufSplit)>, RESPError>(e),
        Parsed::Complete(v, next) => {
            &&& r matches Ok(Some((n, t)))
            &&& n == next
            &&& pos < next <= buf.len()
            &&& t.resolve(buf) == v
            &&& t.within(next)
        },
    }
}

/// Finds the line that starts at `pos`.
fn word(buf: &[u8], pos: usize) -> (r: Option<(usize, BufSplit)>)
    ensures
        match spec_word(buf@, pos as int) {
            Some((end, next)) => r matches Some((n, w)) && n == next && w.0 == pos && w.1 == end
                && pos <= end && next <= buf@.len(),
            None => r is None,
        },
{
    if buf.len() <= pos {
        return None;
    }
    let tail = vstd::slice::slice_subrange(buf, pos, buf.len());
    proof {
        assert(tail@ =~= buf@.skip(pos as int));
        lemma_first_index_of(tail@, 13u8);
    }
    match find_byte(13u8, tail) {
        Some(end) => {
            if end + 1 < buf.len() - pos {
                Some((pos + end + 2, BufSplit(pos, pos + end)))
            } else {
                None
            }
        },
        None => None,
    }
}

fn integer(buf: &[u8], pos: usize) -> (r: Result<Option<(usize, i64)>, RESPError>)
    ensures
        match spec_int(buf@, pos as int) {
            Parsed::Incomplete => r == Ok::<Option<(usize, i64)>, RESPError>(None),
            Parsed::Invalid(e) => r == Err::<Option<(usize, i64)>, RESPError>(e),
            Parsed::Complete(i, next) => {
                &&& r matches Ok(Some((n, value)))
                &&& n == next
                &&& value == i
                &&& pos < next <= buf@.len()
            },
        },
{
    match word(buf, pos) {
        Some((next, w)) => {
            let text = vstd::slice::slice_subrange(buf, w.0, w.1);
            match parse_i64(text) {
                Some(i) => Ok(Some((next, i))),
                None => Err(RESPError::IntParseFailure),
            }
        },
        None => Ok(None),
    }
}

fn bulk_string(buf: &[u8], pos: usize) -> (r: Result<Option<(usize, RedisBufSplit)>, RESPError>)
    requires
        0 < pos <= buf@.len(),
        buf@[pos - 1] == 36,
    ensures
        matches_parsed(
            r,
            spec_parse(buf@, pos - 1),
            pos - 1,
            buf@,
        ),
{
    match integer(buf, pos) {
        Err(e) => Err(e),
        Ok(None) => Ok(None),
        Ok(Some((next, size))) => {
            if size == -1 {
                Ok(Some((next, RedisBufSplit::NullBulkString)))
            } else if size < 0 {
                Err(RESPError::BadBulkStringSize(size))
            } else {
                let room: usize = buf.len() - next;
                if room < 2 || ((room - 2) as u64) < (size as u64) {
                    Ok(None)
                } else {
                    let end: usize = next + size as usize;
                    Ok(Some((end + 2, RedisBufSplit::BulkString(BufSplit(next, end)))))
                }
            }
        },
    }
}

fn parse(buf: &[u8], pos: usize) -> (r: Result<Option<(usize, RedisBufSplit)>, RESPError>)
    ensures
        matches_parsed(
            r,
            spec_parse(buf@, pos as int),
            pos as int,
            buf@,
        ),
    decreases buf@.len() - pos, 0nat,
{
    if pos >= buf.len() {
        return Ok(None);
    }
    let sigil = buf[pos];
    if sigil == 43 {
        match word(buf, pos + 1) {
            Some((next, w)) => Ok(Some((next, RedisBufSplit::String(w)))),
            None => Ok(None),
        }
    } else if sigil == 45 {
        match word(buf, pos + 1) {
            Some((next, w)) => Ok(Some((next, RedisBufSplit::Error(w)))),
            None => Ok(None),
        }
    } else if sigil == 58 {
        match integer(buf, pos + 1) {
            Err(e) => Err(e),
            Ok(None) => Ok(None),
            Ok(Some((next, i))) => Ok(Some((next, RedisBufSplit::Int(i)))),
        }
    } else if sigil == 36 {
        bulk_string(buf, pos + 1)
    } else if sigil == 42 {
        array(buf, pos + 1)
    } else {
        Err(RESPError::UnknownStartingByte)
    }
}

/// Puts the items read so far in front of what the rest of the array gives.
pub open spec fn prepend(done: Seq<Resp>, rest: Parsed<Seq<Resp>>) -> Parsed<Seq<Resp>> {
    match rest {
        Parsed::Complete(items, end) => Parsed::Complete(done + items, end),
        Parsed::Invalid(e) => Parsed::Invalid(e),
        Parsed::Incomplete => Parsed::Incomplete,
    }
}

fn array(buf: &[u8], pos: usize) -> (r: Result<Option<(usize, RedisBufSplit)>, RESPError>)
    requires
        0 < pos <= buf@.len(),
        buf@[pos - 1] == 42,
    ensures
        matches_parsed(
            r,
            spec_parse(buf@, pos - 1),
            pos - 1,
            buf@,
        ),
    decreases buf@.len() - pos, 1nat,
{
    match integer(buf, pos) {
        Err(e) => Err(e),
        Ok(None) => Ok(None),
        Ok(Some((first, count))) => {
            if count == -1 {
                Ok(Some((first, RedisBufSplit::NullArray)))
            } else if count < 0 {
                Err(RESPError::BadArraySize(count))
            } else {
                let ghost whole = spec_parse_items(buf@, first as int, count as nat);
                let mut values: Vec<RedisBufSplit> = Vec::new();
                let mut cur: usize = first;
                let mut read: i64 = 0;
                while read < count
                    invariant
                        0 <= read <= count,
                        pos < first <= cur <= buf@.len(),
                        spec_parse(buf@, pos - 1) == as_array(whole),
                        values.len() == read,
                        whole == prepend(
                            Seq::new(values.len() as nat, |i: int| values[i].resolve(buf@)),
                            spec_parse_items(buf@, cur as int, (count - read) as nat),
                        ),
                        forall|i: int| 0 <= i < values.len() ==> (#[trigger] values[i]).within(cur as int),
                    decreases count - read,
                {
                    let ghost done = Seq::new(values.len() as nat, |i: int| values[i].resolve(buf@));
                    match parse(buf, cur) {
                        Err(e) => {
                            return Err(e);
                        },
                        Ok(None) => {
                            return Ok(None);
                        },
                        Ok(Some((next, value))) => {
                            proof {
                                let item = value.resolve(buf@);
                                let rest = spec_parse_items(buf@, next as int, (count - read - 1) as nat);
                                assert(spec_parse_items(buf@, cur as int, (count - read) as nat) == prepend(seq![item], rest));
                                assert forall|i: int| 0 <= i < values.len() implies (#[trigger] values[i]).within(next as int) by {
                                    lemma_within_grows(values[i], cur as int, next as int);
                                }
                            }
                            cur = next;
                            values.push(value);
                            read = read + 1;
                            proof {
                                let now = Seq::new(values.len() as nat, |i: int| values[i].resolve(buf@));
                                assert(now =~= done + seq![value.resolve(buf@)]);
                                let rest = spec_parse_items(buf@, cur as int, (count - read) as nat);
                                match rest {
                                    Parsed::Complete(items, end) => {
                                        assert(done + (seq![value.resolve(buf@)] + items) =~= now + items);
                                    },
                                    _ => {},
                                }
                            }
                        },
                    }
                }
                proof {
                    reveal_with_fuel(RedisBufSplit::resolve, 2);
                    let done = Seq::new(values.len() as nat, |i: int| values[i].resolve(buf@));
                    assert(done + Seq::<Resp>::empty() =~= done);
                    assert(RedisBufSplit::Array(values).resolve(buf@)->Array_0 =~= done);
                }
                Ok(Some((cur, RedisBufSplit::Array(values))))
            }
        },
    }
}

/// A value that lies in the first `a` bytes lies in the first `b >= a` too.
pub proof fn lemma_within_grows(t: RedisBufSplit, a: int, b: int)
    requires
        t.within(a),
        a <= b,
    ensures
        t.within(b),
    decreases t,
{
    match t {
        RedisBufSplit::Array(v) => {
            assert forall|i: int| 0 <= i < v.len() implies (#[trigger] v[i]).within(b) by {
                lemma_within_grows(v[i], a, b);
            }
        },
        _ => {},
    }
}

/// Appends a slice to a vector.
pub fn extend(out: &mut Vec<u8>, s: &[u8])
    ensures
        final(out)@ == old(out)@ + s@,
{
    let mut i: usize = 0;
    while i < s.len()
        invariant
            i <= s@.len(),
            out@ == old(out)@ + s@.take(i as int),
        decreases s@.len() - i,
    {
        out.push(s[i]);
        i = i + 1;
        assert(s@.take(i as int) =~= s@.take(i - 1).push(s@[i - 1]));
        assert(out@ =~= old(out)@ + s@.take(i as int));
    }
    assert(s@.take(i as int) =~= s@);
}

/// Appends the encoding of `item` to `out`.
pub fn encode_into(item: &RedisValueRef, out: &mut Vec<u8>)
    ensures
        final(out)@ == old(out)@ + spec_encode(item@),
    decreases item,
{
    match item {
        RedisValueRef::String(s) => {
            out.push(43);
            extend(out, bytes_of(s));
            out.push(13);
            out.push(10);
            assert(out@ =~= old(out)@ + spec_encode(item@));
        },
        RedisValueRef::Error(s) => {
            out.push(45);
            extend(out, bytes_of(s));
            out.push(13);
            out.push(10);
            assert(out@ =~= old(out)@ + spec_encode(item@));
        },
        RedisValueRef::Int(i) => {
            out.push(58);
            push_i64(out, *i);
            out.push(13);
            out.push(10);
            assert(out@ =~= old(out)@ + spec_encode(item@));
        },
        RedisValueRef::BulkString(s) => {
            let payload = bytes_of(s);
            out.push(36);
            push_u64(out, payload.len() as u64);
            out.push(13);
            out.push(10);
            extend(out, payload);
            out.push(13);
            out.push(10);
            assert(out@ =~= old(out)@ + spec_encode(item@));
        },
        RedisValueRef::Array(v) => {
            out.push(42);
            push_u64(out, v.len() as u64);
            out.push(13);
            out.push(10);
            let ghost head = out@;
            let ghost a = views(v@);
            proof {
                lemma_array_view(*v);
                assert(head =~= old(out)@ + (seq![42u8] + spec_format_nat(a.len()) + crlf()));
            }
            let mut i: usize = 0;
            while i < v.len()
                invariant
                    *item == RedisValueRef::Array(*v),
                    a == views(v@),
                    i <= v.len(),
                    out@ + spec_encode_from(a, i as nat) == head + spec_encode_from(a, 0),
                decreases v.len() - i,
            {
                assert(item->Array_0 == *v);
                assert(decreases_to!(item => item->Array_0));
                assert(decreases_to!(item => v[i as int]));
                let ghost before = out@;
                encode_into(&v[i], out);
                proof {
                    assert(a[i as int] == v[i as int]@);
                    assert(before + spec_encode_from(a, i as nat) =~= out@ + spec_encode_from(
                        a,
                        (i + 1) as nat,
                    ));
                }
                i = i + 1;
            }
            proof {
                assert(out@ + spec_encode_from(a, i as nat) =~= out@);
                assert(out@ =~= old(out)@ + spec_encode(item@));
            }
        },
        RedisValueRef::NullBulkString => {
            out.push(36);
            out.push(45);
            out.push(49);
            out.push(13);
            out.push(10);
            assert(out@ =~= old(out)@ + spec_encode(item@));
        },
        RedisValueRef::NullArray => {
            out.push(42);
            out.push(45);
            out.push(49);
            out.push(13);
            out.push(10);
            assert(out@ =~= old(out)@ + spec_encode(item@));
        },
    }
}

/// The codec of the protocol. It keeps no state between frames.
#[derive(Debug, Default, Clone, Copy)]
pub struct RespParser;

impl RespParser {
    /// Takes one frame off the front of `buf`, if a whole one is there.
    ///
    /// With a whole frame at the front, the frame leaves the buffer and its
    /// value is returned. While the frame is incomplete nothing is returned
    /// and the buffer stays as it is, to be filled further. Bytes that cannot
    /// start a frame give an error, and the buffer stays as it is.
    pub fn decode(&mut self, buf: &mut BytesMut) -> (r: Result<Option<RedisValueRef>, RESPError>)
        ensures
            match spec_parse(pending(*old(buf)), 0) {
                Parsed::Incomplete => r matches Ok(None) && pending(*final(buf)) == pending(
                    *old(buf),
                ),
                Parsed::Invalid(e) => r == Err::<Option<RedisValueRef>, RESPError>(e) && pending(
                    *final(buf),
                ) == pending(*old(buf)),
                Parsed::Complete(v, next) => {
                    &&& r matches Ok(Some(value))
                    &&& value@ == v
                    &&& 0 < next <= pending(*old(buf)).len()
                    &&& pending(*final(buf)) == pending(*old(buf)).skip(next)
                },
            },
    {
        let parsed = parse(pending_of(buf), 0);
        match parsed {
            Err(e) => Err(e),
            Ok(None) => Ok(None),
            Ok(Some((pos, value))) => {
                proof {
                    value.lemma_resolve_prefix(pending(*old(buf)), pos as int);
                }
                let frame = freeze(split_front(buf, pos));
                Ok(Some(value.redis_value(&frame)))
            },
        }
    }

    /// Appends the encoding of `item` to `dst`.
    pub fn encode(&mut self, item: RedisValueRef, dst: &mut BytesMut) -> (r: Result<(), RESPError>)
        ensures
            r is Ok,
            pending(*final(dst)) == pending(*old(dst)) + spec_encode(item@),
    {
        let mut out: Vec<u8> = Vec::new();
        encode_into(&item, &mut out);
        append(dst, out.as_slice());
        assert(Seq::<u8>::empty() + spec_encode(item@) =~= spec_encode(item@));
        Ok(())
    }
}


/// The values that the encoder writes so that the decoder reads them back:
/// one-line strings hold no carriage return, and lengths fit the 64-bit
/// signed integer in which the protocol writes them.
pub open spec fn serializable(v: Resp) -> bool
    decreases v,
{
    match v {
        Resp::String(s) => !s.contains(cr()),
        Resp::Error(s) => !s.contains(cr()),
        Resp::BulkString(s) => s.len() <= i64::MAX,
        Resp::Array(a) => a.len() <= i64::MAX && forall|i: int|
            0 <= i < a.len() ==> serializable(#[trigger] a[i]),
        _ => true,
    }
}

/// A line without carriage return, followed by one and one byte more, is the
/// word at its position.
proof fn lemma_line(buf: Seq<u8>, pos: int, line: Seq<u8>)
    requires
        0 <= pos,
        pos + line.len() + 2 <= buf.len(),
        buf.subrange(pos, pos + line.len()) == line,
        buf[pos + line.len()] == cr(),
        !line.contains(cr()),
    ensures
        spec_word(buf, pos) == Some((pos + line.len(), pos + line.len() + 2)),
{
    let tail = buf.skip(pos);
    assert forall|j: int| 0 <= j < line.len() implies tail[j] != cr() by {
        assert(tail[j] == line[j]);
        assert(line.contains(line[j]));
    }
    lemma_first_index_at(tail, cr(), line.len() as int);
}

/// The line that holds the decimal text of `i` reads as `i`.
proof fn lemma_int_line(buf: Seq<u8>, pos: int, i: i64)
    requires
        0 <= pos,
        pos + spec_format_i64(i).len() + 2 <= buf.len(),
        buf.subrange(pos, pos + spec_format_i64(i).len()) == spec_format_i64(i),
        buf[pos + spec_format_i64(i).len()] == cr(),
    ensures
        spec_int(buf, pos) == Parsed::Complete(i, pos + spec_format_i64(i).len() + 2),
{
    let text = spec_format_i64(i);
    lemma_format_i64_plain(i);
    lemma_parse_format_i64(i);
    assert(!text.contains(cr())) by {
        if text.contains(cr()) {
            let k = choose|k: int| 0 <= k < text.len() && text[k] == cr();
            assert(text[k] == cr());
        }
    }
    lemma_line(buf, pos, text);
}

/// A sigil, a line without carriage return and the line's end, wherever they
/// stand in a buffer: the word behind the sigil is that line.
proof fn lemma_sigil_line(before: Seq<u8>, sigil: u8, line: Seq<u8>, after: Seq<u8>)
    requires
        !line.contains(cr()),
    ensures
        ({
            let buf = before + (seq![sigil] + line + crlf()) + after;
            let pos = before.len() as int;
            &&& pos < buf.len()
            &&& buf[pos] == sigil
            &&& spec_word(buf, pos + 1) == Some((pos + 1 + line.len(), pos + 1 + line.len() + 2))
            &&& buf.subrange(pos + 1, pos + 1 + line.len()) == line
        }),
{
    let enc = seq![sigil] + line + crlf();
    let buf = before + enc + after;
    let pos = before.len() as int;
    assert(buf[pos] == enc[0]);
    assert(buf[pos + 1 + line.len()] == enc[1 + line.len() as int]);
    assert(buf.subrange(pos + 1, pos + 1 + line.len()) =~= line);
    lemma_line(buf, pos + 1, line);
}

/// A sigil, the decimal text of `n` and the line's end, wherever they stand
/// in a buffer: the integer behind the sigil is `n`.
proof fn lemma_sigil_int(before: Seq<u8>, sigil: u8, n: i64, after: Seq<u8>)
    ensures
        ({
            let text = spec_format_i64(n);
            let buf = before + (seq![sigil] + text + crlf()) + after;
            let pos = before.len() as int;
            &&& pos < buf.len()
            &&& buf[pos] == sigil
            &&& spec_int(buf, pos + 1) == Parsed::Complete(n, pos + 1 + text.len() + 2)
        }),
{
    let text = spec_format_i64(n);
    let enc = seq![sigil] + text + crlf();
    let buf = before + enc + after;
    let pos = before.len() as int;
    assert(buf[pos] == enc[0]);
    assert(buf[pos + 1 + text.len()] == enc[1 + text.len() as int]);
    assert(buf.subrange(pos + 1, pos + 1 + text.len()) =~= text);
    lemma_int_line(buf, pos + 1, n);
}

proof fn lemma_decode_encode_bulk(s: Seq<u8>, before: Seq<u8>, after: Seq<u8>)
    requires
        s.len() <= i64::MAX,
    ensures
        spec_parse(before + spec_encode(Resp::BulkString(s)) + after, before.len() as int)
            == Parsed::Complete(
            Resp::BulkString(s),
            (before.len() + spec_encode(Resp::BulkString(s)).len()) as int,
        ),
{
    let n = s.len() as i64;
    let text = spec_format_nat(s.len());
    let head = seq![36u8] + text + crlf();
    let enc = spec_encode(Resp::BulkString(s));
    let buf = before + enc + after;
    let pos = before.len() as int;
    assert(text == spec_format_i64(n));
    lemma_sigil_int(before, 36u8, n, s + crlf() + after);
    assert(buf =~= before + head + (s + crlf() + after));
    let next = pos + 1 + text.len() + 2;
    assert(buf.subrange(next, next + s.len()) =~= s);
    assert(enc.len() == 1 + text.len() + 2 + s.len() + 2);
}

proof fn lemma_minus_one()
    ensures
        spec_format_i64(-1i64) == seq![45u8, 49u8],
{
    reveal_with_fuel(spec_format_nat, 2);
    assert(spec_format_i64(-1i64) =~= seq![45u8, 49u8]);
}

/// Decoding undoes encoding: where the encoding of a serializable value
/// stands in a buffer, whatever comes before and after it, the grammar reads
/// that value, and ends just behind the encoding.
pub proof fn lemma_decode_encode(v: Resp, before: Seq<u8>, after: Seq<u8>)
    requires
        serializable(v),
    ensures
        spec_parse(before + spec_encode(v) + after, before.len() as int) == Parsed::Complete(
            v,
            (before.len() + spec_encode(v).len()) as int,
        ),
        spec_encode(v).len() > 0,
    decreases v, 0nat,
{
    let enc = spec_encode(v);
    let buf = before + enc + after;
    let pos = before.len() as int;
    match v {
        Resp::String(s) => {
            lemma_sigil_line(before, 43u8, s, after);
        },
        Resp::Error(s) => {
            lemma_sigil_line(before, 45u8, s, after);
        },
        Resp::Int(i) => {
            lemma_sigil_int(before, 58u8, i, after);
        },
        Resp::BulkString(s) => {
            lemma_decode_encode_bulk(s, before, after);
        },
        Resp::Array(a) => {
            let n = a.len() as i64;
            let text = spec_format_nat(a.len());
            assert(text == spec_format_i64(n));
            let head = seq![42u8] + text + crlf();
            let items = spec_encode_from(a, 0);
            lemma_sigil_int(before, 42u8, n, items + after);
            assert(buf =~= before + head + (items + after));
            lemma_decode_encode_items(a, 0, before + head, after);
            assert(buf =~= (before + head) + items + after);
            assert(a.skip(0) =~= a);
            assert(enc.len() == head.len() + items.len());
        },
        Resp::NullBulkString => {
            lemma_minus_one();
            lemma_sigil_int(before, 36u8, -1i64, after);
            assert(enc =~= seq![36u8] + spec_format_i64(-1i64) + crlf());
        },
        Resp::NullArray => {
            lemma_minus_one();
            lemma_sigil_int(before, 42u8, -1i64, after);
            assert(enc =~= seq![42u8] + spec_format_i64(-1i64) + crlf());
        },
    }
}

/// The same for the items of an array, from the `i`-th on.
pub proof fn lemma_decode_encode_items(a: Seq<Resp>, i: nat, before: Seq<u8>, after: Seq<u8>)
    requires
        i <= a.len(),
        forall|k: int| 0 <= k < a.len() ==> serializable(#[trigger] a[k]),
    ensures
        spec_parse_items(
            before + spec_encode_from(a, i) + after,
            before.len() as int,
            (a.len() - i) as nat,
        ) == Parsed::Complete(
            a.skip(i as int),
            (before.len() + spec_encode_from(a, i).len()) as int,
        ),
    decreases a, a.len() - i,
{
    let buf = before + spec_encode_from(a, i) + after;
    if i == a.len() {
        assert(a.skip(i as int) =~= Seq::<Resp>::empty());
    } else {
        let first = spec_encode(a[i as int]);
        let rest = spec_encode_from(a, i + 1);
        lemma_decode_encode(a[i as int], before, rest + after);
        assert(buf =~= before + first + (rest + after));
        lemma_decode_encode_items(a, i + 1, before + first, after);
        assert(buf =~= (before + first) + rest + after);
        assert(seq![a[i as int]] + a.skip(i as int + 1) =~= a.skip(i as int));
    }
}

} // verus!
