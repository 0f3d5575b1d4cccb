//! The stream store: per key, an append-only run of entries in the order of
//! their identifiers.

use crate::buffer::all_contents;
use crate::buffer::bytes_from_text;
use crate::buffer::bytes_from_vec;
use crate::buffer::bytes_of;
use crate::buffer::contents;
use crate::buffer::find_byte;
use crate::buffer::first_index_of;
use crate::buffer::holds_text;
use crate::buffer::lemma_first_index_of;
use crate::buffer::text;
use crate::bytemap::ByteMap;
use crate::decimal::lemma_format_nat;
use crate::decimal::lemma_parse_format_u64;
use crate::decimal::parse_u64;
use crate::decimal::push_u64;
use crate::decimal::spec_format_u64;
use crate::decimal::spec_parse_u64;
use crate::resp::lemma_array_view;
use crate::resp::views;
use crate::resp::RedisValueRef;
use crate::resp::Resp;
use crate::waiters::is_rest_of;
use crate::waiters::queue_of;
use crate::waiters::WaitOutcome;
use crate::waiters::WaiterQueues;
use bytes::Bytes;
use tokio::sync::oneshot::Receiver;
use tokio::sync::oneshot::Sender;
use vstd::prelude::*;

verus! {

/// An identifier: milliseconds and a sequence number.
pub type Id = (u64, u64);

/// The order of identifiers: by milliseconds, then by sequence number.
pub open spec fn id_less(a: Id, b: Id) -> bool {
    a.0 < b.0 || (a.0 == b.0 && a.1 < b.1)
}

/// The order of byte strings: at the first byte that differs the smaller
/// byte decides; a proper prefix comes first.
pub open spec fn bytes_less(a: Seq<u8>, b: Seq<u8>) -> bool
    decreases a.len(),
{
    if b.len() == 0 {
        false
    } else if a.len() == 0 {
        true
    } else if a[0] != b[0] {
        a[0] < b[0]
    } else {
        bytes_less(a.skip(1), b.skip(1))
    }
}

/// The fields of an entry: names with their values, in the order of the
/// names.
pub type Fields = Seq<(Seq<u8>, Seq<u8>)>;

/// The fields with `value` under `name`: in place of the value that the name
/// had, or at the name's place in the order.
pub open spec fn with_field(fields: Fields, name: Seq<u8>, value: Seq<u8>) -> Fields
    decreases fields.len(),
{
    if fields.len() == 0 {
        seq![(name, value)]
    } else if fields[0].0 == name {
        seq![(name, value)] + fields.skip(1)
    } else if bytes_less(name, fields[0].0) {
        seq![(name, value)] + fields
    } else {
        seq![fields[0]] + with_field(fields.skip(1), name, value)
    }
}

/// The fields that the first `n` pairs of `kv` make, `kv` being names and
/// values in turn. A name that comes twice keeps its later value.
pub open spec fn field_map_of(kv: Seq<Seq<u8>>, n: nat) -> Fields
    decreases n,
{
    if n == 0 {
        Seq::empty()
    } else {
        with_field(field_map_of(kv, (n - 1) as nat), kv[2 * (n - 1)], kv[2 * (n - 1) + 1])
    }
}

/// The fields that `kv` makes; a name left without value at the end is
/// dropped.
pub open spec fn spec_field_map(kv: Seq<Seq<u8>>) -> Fields {
    field_map_of(kv, kv.len() / 2)
}

/// The mathematical value of an entry.
pub struct EntryView {
    pub id: Id,
    pub fields: Fields,
}

/// Why `XADD` takes no entry.
#[derive(Debug, Clone, Copy, PartialEq, Eq, Structural)]
pub enum IdError {
    /// The identifier is not of a form that `XADD` knows.
    Invalid,
    /// The identifier is `0-0`.
    Zero,
    /// The identifier does not lie behind the stream's last one.
    NotAfterTop,
}

/// The identifier of the last entry.
pub open spec fn last_id(entries: Seq<EntryView>) -> Option<Id> {
    if entries.len() == 0 {
        None
    } else {
        Some(entries.last().id)
    }
}

/// The identifier for `*`: the wall clock with sequence number 0 where that
/// lies behind the last identifier, else the identifier next to the last.
pub open spec fn spec_auto_id(last: Option<Id>, now: u64) -> Result<Id, IdError> {
    match last {
        None => Ok((now, 0u64)),
        Some((ms, seq)) => if now > ms {
            Ok((now, 0u64))
        } else if seq < u64::MAX {
            Ok((ms, (seq + 1) as u64))
        } else if ms < u64::MAX {
            Ok(((ms + 1) as u64, 0u64))
        } else {
            Err(IdError::NotAfterTop)
        },
    }
}

/// The identifier for `ms-*`: the sequence number next to the last where
/// `ms` is the last entry's, else 0, or 1 for the first entry of a stream at
/// `ms` 0.
pub open spec fn spec_auto_seq(last: Option<Id>, ms: u64) -> Result<Id, IdError> {
    match last {
        None => Ok(
            (
                ms,
                if ms == 0 {
                    1u64
                } else {
                    0u64
                },
            ),
        ),
        Some((last_ms, last_seq)) => if ms == last_ms {
            if last_seq < u64::MAX {
                Ok((ms, (last_seq + 1) as u64))
            } else {
                Err(IdError::NotAfterTop)
            }
        } else if ms > last_ms {
            Ok((ms, 0u64))
        } else {
            Err(IdError::NotAfterTop)
        },
    }
}

/// The check of an identifier that is given in full.
pub open spec fn spec_validate(last: Option<Id>, id: Id) -> Result<Id, IdError> {
    if id.0 == 0 && id.1 == 0 {
        Err(IdError::Zero)
    } else if last matches Some(top) && !id_less(top, id) {
        Err(IdError::NotAfterTop)
    } else {
        Ok(id)
    }
}

/// The two parts of `ms-seq`: what stands before the first `-`, and what
/// stands behind it.
pub open spec fn spec_split_id(id: Seq<u8>) -> Option<(Seq<u8>, Seq<u8>)> {
    match first_index_of(id, 45u8) {
        Some(p) => Some((id.take(p), id.skip(p + 1))),
        None => None,
    }
}

/// The identifier `ms-seq` that `id` spells in full.
pub open spec fn spec_parse_id(id: Seq<u8>) -> Option<Id> {
    match spec_split_id(id) {
        Some((ms_text, seq_text)) => match (spec_parse_u64(ms_text), spec_parse_u64(seq_text)) {
            (Some(ms), Some(seq)) => Some((ms, seq)),
            _ => None,
        },
        None => None,
    }
}

/// The identifier that `XADD` gives an entry, for the identifier `id` that
/// the client wrote.
pub open spec fn spec_resolve_id(last: Option<Id>, id: Seq<u8>, now: u64) -> Result<Id, IdError> {
    if id == text("*") {
        spec_auto_id(last, now)
    } else {
        match spec_split_id(id) {
            Some((ms_text, seq_text)) => match spec_parse_u64(ms_text) {
                Some(ms) => if seq_text == text("*") {
                    spec_auto_seq(last, ms)
                } else {
                    match spec_parse_u64(seq_text) {
                        Some(seq) => spec_validate(last, (ms, seq)),
                        None => Err(IdError::Invalid),
                    }
                },
                None => Err(IdError::Invalid),
            },
            None => Err(IdError::Invalid),
        }
    }
}

/// An identifier as text: `ms-seq`.
pub open spec fn spec_format_id(id: Id) -> Seq<u8> {
    spec_format_u64(id.0) + seq![45u8] + spec_format_u64(id.1)
}

/// The message that goes with a refusal.
pub open spec fn spec_id_error_text(e: IdError) -> Seq<u8> {
    match e {
        IdError::Invalid => text("ERR Invalid stream ID specified as stream command argument"),
        IdError::Zero => text("ERR The ID specified in XADD must be greater than 0-0"),
        IdError::NotAfterTop => text(
            "ERR The ID specified in XADD is equal or smaller than the target stream top item",
        ),
    }
}

/// Names and values in turn, as bulk strings.
pub open spec fn flat_fields(fields: Fields) -> Seq<Resp> {
    Seq::new(
        2 * fields.len(),
        |i: int|
            if i % 2 == 0 {
                Resp::BulkString(fields[i / 2].0)
            } else {
                Resp::BulkString(fields[i / 2].1)
            },
    )
}

/// An entry as a reply: its identifier, then its fields.
pub open spec fn entry_reply(e: EntryView) -> Resp {
    Resp::Array(seq![Resp::BulkString(spec_format_id(e.id)), Resp::Array(flat_fields(e.fields))])
}

/// Whether `id` lies from `lo` to `hi`; `lo` itself counts unless the span
/// is open there, `hi` always.
pub open spec fn in_span(id: Id, lo: Id, open: bool, hi: Id) -> bool {
    (if open {
        id_less(lo, id)
    } else {
        !id_less(id, lo)
    }) && !id_less(hi, id)
}

/// The greatest identifier.
pub open spec fn top_id() -> Id {
    (u64::MAX, u64::MAX)
}

/// Those of the first `n` entries that lie in the span, as replies, in
/// order.
pub open spec fn replies_in(entries: Seq<EntryView>, n: nat, lo: Id, open: bool, hi: Id) -> Seq<
    Resp,
>
    decreases n,
{
    if n == 0 {
        Seq::empty()
    } else {
        let before = replies_in(entries, (n - 1) as nat, lo, open, hi);
        if in_span(entries[n - 1].id, lo, open, hi) {
            before.push(entry_reply(entries[n - 1]))
        } else {
            before
        }
    }
}

/// The lower bound that `XRANGE` reads from `start`: `-` is the least
/// identifier.
pub open spec fn spec_lower_bound(start: Seq<u8>) -> Option<Id> {
    if start == text("-") {
        Some((0u64, 0u64))
    } else {
        spec_parse_id(start)
    }
}

/// The upper bound that `XRANGE` reads from `end`: `+` is the greatest
/// identifier.
pub open spec fn spec_upper_bound(end: Seq<u8>) -> Option<Id> {
    if end == text("+") {
        Some(top_id())
    } else {
        spec_parse_id(end)
    }
}

/// What `XRANGE` returns: the entries from `start` to `end`, both included,
/// in the order of their identifiers. A bound that is no identifier gives
/// nothing.
pub open spec fn spec_xrange(entries: Seq<EntryView>, start: Seq<u8>, end: Seq<u8>) -> Seq<Resp> {
    match (spec_lower_bound(start), spec_upper_bound(end)) {
        (Some(lo), Some(hi)) => replies_in(entries, entries.len(), lo, false, hi),
        _ => Seq::empty(),
    }
}

/// The identifier that `XREAD` reads behind: `$` is the stream's last one,
/// or `0-0` for a stream without entries.
pub open spec fn spec_read_from(entries: Seq<EntryView>, from: Seq<u8>) -> Option<Id> {
    if from == text("$") {
        match last_id(entries) {
            Some(id) => Some(id),
            None => Some((0u64, 0u64)),
        }
    } else {
        spec_parse_id(from)
    }
}

/// The entries of one stream that `XREAD` returns: those behind `from`.
pub open spec fn spec_read_stream(entries: Seq<EntryView>, from: Seq<u8>) -> Seq<Resp> {
    match spec_read_from(entries, from) {
        Some(after) => replies_in(entries, entries.len(), after, true, top_id()),
        None => Seq::empty(),
    }
}

/// The streams of a store, by key.
pub type Streams = Map<Seq<u8>, Seq<EntryView>>;

/// What `XREAD` returns for the first `n` pairs of `kv`, `kv` being keys and
/// identifiers in turn: for each stream that has entries behind its
/// identifier, the key and those entries.
pub open spec fn spec_xread_upto(m: Streams, kv: Seq<Seq<u8>>, n: nat) -> Seq<Resp>
    decreases n,
{
    if n == 0 {
        Seq::empty()
    } else {
        let before = spec_xread_upto(m, kv, (n - 1) as nat);
        let key = kv[2 * (n - 1)];
        let found = spec_read_stream(queue_of(m, key), kv[2 * (n - 1) + 1]);
        if found.len() > 0 {
            before.push(Resp::Array(seq![Resp::BulkString(key), Resp::Array(found)]))
        } else {
            before
        }
    }
}

pub open spec fn spec_xread(m: Streams, kv: Seq<Seq<u8>>) -> Seq<Resp> {
    spec_xread_upto(m, kv, kv.len() / 2)
}

/// The stream after `XADD`, and the identifier given, or the refusal.
pub open spec fn spec_xadd(
    entries: Seq<EntryView>,
    id: Seq<u8>,
    kv: Seq<Seq<u8>>,
    now: u64,
) -> Result<(Seq<EntryView>, Id), IdError> {
    match spec_resolve_id(last_id(entries), id, now) {
        Ok(given) => Ok(
            (entries.push(EntryView { id: given, fields: spec_field_map(kv) }), given),
        ),
        Err(e) => Err(e),
    }
}

/// Whether the identifiers grow from each entry to the next.
pub open spec fn ascending(entries: Seq<EntryView>) -> bool {
    forall|i: int, j: int|
        0 <= i < j < entries.len() ==> id_less((#[trigger] entries[i]).id, (#[trigger] entries[j]).id)
}

/// An identifier that `XADD` gives lies behind the stream's last one.
pub proof fn lemma_given_after_top(last: Option<Id>, id: Seq<u8>, now: u64)
    ensures
        match (spec_resolve_id(last, id, now), last) {
            (Ok(given), Some(top)) => id_less(top, given),
            _ => true,
        },
{
}

/// Identifiers grow. In a stream whose identifiers grow from entry to entry,
/// the entry that `XADD` appends lies behind every entry that was there, and
/// the identifiers of the longer stream grow again.
pub proof fn lemma_xadd_ascends(entries: Seq<EntryView>, id: Seq<u8>, kv: Seq<Seq<u8>>, now: u64)
    requires
        ascending(entries),
    ensures
        match spec_xadd(entries, id, kv, now) {
            Ok((after, given)) => {
                &&& ascending(after)
                &&& after.len() == entries.len() + 1
                &&& after.last().id == given
                &&& forall|i: int| 0 <= i < entries.len() ==> id_less(entries[i].id, given)
            },
            Err(_) => true,
        },
{
    lemma_given_after_top(last_id(entries), id, now);
    match spec_xadd(entries, id, kv, now) {
        Ok((after, given)) => {
            assert forall|i: int| 0 <= i < entries.len() implies id_less(entries[i].id, given) by {
                if i < entries.len() - 1 {
                    assert(id_less(entries[i].id, entries[entries.len() - 1].id));
                }
            }
            assert forall|i: int, j: int| 0 <= i < j < after.len() implies id_less(
                (#[trigger] after[i]).id,
                (#[trigger] after[j]).id,
            ) by {
                if j < entries.len() {
                    assert(id_less(entries[i].id, entries[j].id));
                }
            }
        },
        Err(_) => {},
    }
}

/// Of two entries that `XADD` appends to a stream one after the other, the
/// second has the greater identifier.
pub proof fn lemma_xadd_twice(
    entries: Seq<EntryView>,
    id1: Seq<u8>,
    kv1: Seq<Seq<u8>>,
    now1: u64,
    id2: Seq<u8>,
    kv2: Seq<Seq<u8>>,
    now2: u64,
)
    requires
        spec_xadd(entries, id1, kv1, now1) is Ok,
        spec_xadd(spec_xadd(entries, id1, kv1, now1)->Ok_0.0, id2, kv2, now2) is Ok,
    ensures
        id_less(
            spec_xadd(entries, id1, kv1, now1)->Ok_0.1,
            spec_xadd(spec_xadd(entries, id1, kv1, now1)->Ok_0.0, id2, kv2, now2)->Ok_0.1,
        ),
{
    let first = spec_xadd(entries, id1, kv1, now1)->Ok_0;
    lemma_given_after_top(last_id(first.0), id2, now2);
}

/// The entries as replies, all of them, in order.
pub open spec fn all_replies(entries: Seq<EntryView>) -> Seq<Resp> {
    Seq::new(entries.len(), |i: int| entry_reply(entries[i]))
}

/// Every identifier lies in the span from the least to the greatest.
pub proof fn lemma_replies_in_whole(entries: Seq<EntryView>, n: nat)
    requires
        n <= entries.len(),
    ensures
        replies_in(entries, n, (0u64, 0u64), false, top_id()) == all_replies(entries).take(n as int),
    decreases n,
{
    if n == 0 {
        assert(all_replies(entries).take(0) =~= Seq::<Resp>::empty());
    } else {
        lemma_replies_in_whole(entries, (n - 1) as nat);
        assert(all_replies(entries).take(n as int) =~= all_replies(entries).take(n - 1).push(
            entry_reply(entries[n - 1]),
        ));
    }
}

/// `XRANGE` from `-` to `+` returns every entry of the stream, in the order
/// in which the entries were appended, which is the order of their
/// identifiers.
pub proof fn lemma_xrange_all(entries: Seq<EntryView>)
    ensures
        spec_xrange(entries, text("-"), text("+")) == all_replies(entries),
{
    lemma_replies_in_whole(entries, entries.len());
    assert(all_replies(entries).take(entries.len() as int) =~= all_replies(entries));
}

/// What `ms-*` gives: `0-1` in a stream without entries when `ms` is 0, and
/// the sequence number next to the last when `ms` is the last entry's.
pub proof fn lemma_auto_seq(last: Id)
    ensures
        spec_auto_seq(None, 0) == Ok::<Id, IdError>((0u64, 1u64)),
        last.1 < u64::MAX ==> spec_auto_seq(Some(last), last.0) == Ok::<Id, IdError>(
            (last.0, (last.1 + 1) as u64),
        ),
{
}

/// `ms-*`, written with the decimal text of `ms`, asks for the sequence
/// number to be chosen for `ms`.
pub proof fn lemma_resolve_auto_seq(last: Option<Id>, ms: u64, now: u64)
    ensures
        spec_resolve_id(last, spec_format_u64(ms) + text("-*"), now) == spec_auto_seq(last, ms),
{
    reveal_strlit("*");
    reveal_strlit("-*");
    assert("*"@ =~= seq!['*']);
    assert("-*"@ =~= seq!['-', '*']);
    assert(vstd::string::is_ascii("*")) by {
        assert(vstd::utf8::is_ascii_chars("*"@));
    }
    assert(vstd::string::is_ascii("-*")) by {
        assert(vstd::utf8::is_ascii_chars("-*"@));
    }
    crate::buffer::lemma_text_ascii("*");
    crate::buffer::lemma_text_ascii("-*");
    assert(text("*") =~= seq![42u8]);
    assert(text("-*") =~= seq![45u8, 42u8]);
    let digits = spec_format_u64(ms);
    let id = digits + text("-*");
    lemma_format_nat(ms as nat);
    lemma_parse_format_u64(ms);
    assert(id.len() == digits.len() + 2);
    assert forall|j: int| 0 <= j < digits.len() implies id[j] != 45u8 by {
        assert(id[j] == digits[j]);
        assert(crate::decimal::is_digit(digits[j]));
    }
    assert(id[digits.len() as int] == 45u8);
    crate::buffer::lemma_first_index_at(id, 45u8, digits.len() as int);
    assert(id.take(digits.len() as int) =~= digits);
    assert(id.skip(digits.len() as int + 1) =~= seq![42u8]);
}

/// Whether `a` comes before `b` in the order of byte strings.
pub fn less_bytes(a: &[u8], b: &[u8]) -> (less: bool)
    ensures
        less == bytes_less(a@, b@),
{
    let mut i: usize = 0;
    proof {
        assert(a@.skip(0) =~= a@);
        assert(b@.skip(0) =~= b@);
    }
    loop
        invariant
            i <= a@.len(),
            i <= b@.len(),
            bytes_less(a@, b@) == bytes_less(a@.skip(i as int), b@.skip(i as int)),
        decreases a@.len() - i,
    {
        if i == b.len() {
            return false;
        }
        if i == a.len() {
            return true;
        }
        if a[i] != b[i] {
            return a[i] < b[i];
        }
        proof {
            assert(a@.skip(i as int).skip(1) =~= a@.skip(i + 1));
            assert(b@.skip(i as int).skip(1) =~= b@.skip(i + 1));
        }
        i = i + 1;
    }
}

/// What each pair of handles refers to.
pub open spec fn fields_view(fields: Seq<(Bytes, Bytes)>) -> Fields {
    Seq::new(fields.len(), |i: int| (contents(fields[i].0), contents(fields[i].1)))
}

/// Puts `value` under `name`.
fn set_field(fields: &mut Vec<(Bytes, Bytes)>, name: Bytes, value: Bytes)
    ensures
        fields_view(final(fields)@) == with_field(
            fields_view(old(fields)@),
            contents(name),
            contents(value),
        ),
{
    let ghost all = fields_view(fields@);
    let ghost n = contents(name);
    let ghost v = contents(value);
    let mut i: usize = 0;
    proof {
        assert(all.skip(0) =~= all);
        assert(all.take(0) + with_field(all, n, v) =~= with_field(all, n, v));
    }
    while i < fields.len()
        invariant
            i <= fields@.len(),
            fields@ == old(fields)@,
            all == fields_view(fields@),
            n == contents(name),
            v == contents(value),
            with_field(all, n, v) == all.take(i as int) + with_field(all.skip(i as int), n, v),
        decreases fields@.len() - i,
    {
        let ghost rest = all.skip(i as int);
        assert(rest[0] == all[i as int]);
        if crate::buffer::same_bytes(bytes_of(&fields[i].0), bytes_of(&name)) {
            fields.set(i, (name, value));
            proof {
                assert(fields_view(fields@) =~= all.take(i as int) + (seq![(n, v)] + rest.skip(1)));
            }
            return ;
        }
        if less_bytes(bytes_of(&name), bytes_of(&fields[i].0)) {
            fields.insert(i, (name, value));
            proof {
                assert(fields_view(fields@) =~= all.take(i as int) + (seq![(n, v)] + rest));
            }
            return ;
        }
        proof {
            assert(rest.skip(1) =~= all.skip(i + 1));
            assert(all.take(i as int) + (seq![rest[0]] + with_field(rest.skip(1), n, v))
                =~= all.take(i + 1) + with_field(all.skip(i + 1), n, v));
        }
        i = i + 1;
    }
    proof {
        assert(all.skip(i as int) =~= Fields::empty());
        assert(all.take(i as int) =~= all);
    }
    fields.push((name, value));
    assert(fields_view(fields@) =~= all + seq![(n, v)]);
}

/// The fields that `kv` makes.
pub fn field_map(kv: &Vec<Bytes>) -> (fields: Vec<(Bytes, Bytes)>)
    ensures
        fields_view(fields@) == spec_field_map(all_contents(kv@)),
{
    let mut fields: Vec<(Bytes, Bytes)> = Vec::new();
    let pairs: usize = kv.len() / 2;
    let mut i: usize = 0;
    assert(fields_view(fields@) =~= Fields::empty());
    while i < pairs
        invariant
            i <= pairs,
            pairs == kv.len() / 2,
            fields_view(fields@) == field_map_of(all_contents(kv@), i as nat),
        decreases pairs - i,
    {
        set_field(&mut fields, kv[2 * i].clone(), kv[2 * i + 1].clone());
        i = i + 1;
    }
    fields
}


/// One entry of a stream.
pub struct StreamEntry {
    pub id: Id,
    pub fields: Vec<(Bytes, Bytes)>,
}

impl StreamEntry {
    pub open spec fn view(&self) -> EntryView {
        EntryView { id: self.id, fields: fields_view(self.fields@) }
    }

    /// The entry as a reply.
    fn reply(&self) -> (r: RedisValueRef)
        ensures
            r@ == entry_reply(self@),
    {
        let mut flat: Vec<RedisValueRef> = Vec::new();
        let mut i: usize = 0;
        while i < self.fields.len()
            invariant
                i <= self.fields@.len(),
                flat@.len() == 2 * i,
                forall|j: int|
                    0 <= j < 2 * i ==> (#[trigger] flat@[j])@ == flat_fields(
                        fields_view(self.fields@),
                    )[j],
            decreases self.fields@.len() - i,
        {
            flat.push(RedisValueRef::BulkString(self.fields[i].0.clone()));
            flat.push(RedisValueRef::BulkString(self.fields[i].1.clone()));
            i = i + 1;
        }
        let mut pair: Vec<RedisValueRef> = Vec::new();
        pair.push(RedisValueRef::BulkString(bytes_from_vec(format_id(self.id))));
        proof {
            lemma_array_view(flat);
            assert(views(flat@) =~= flat_fields(fields_view(self.fields@)));
        }
        pair.push(RedisValueRef::Array(flat));
        proof {
            lemma_array_view(pair);
            assert(views(pair@) =~= seq![
                Resp::BulkString(spec_format_id(self.id)),
                Resp::Array(flat_fields(fields_view(self.fields@))),
            ]);
        }
        RedisValueRef::Array(pair)
    }
}

/// An identifier as text.
pub fn format_id(id: Id) -> (out: Vec<u8>)
    ensures
        out@ == spec_format_id(id),
{
    let mut out: Vec<u8> = Vec::new();
    push_u64(&mut out, id.0);
    out.push(45);
    push_u64(&mut out, id.1);
    assert(out@ =~= spec_format_id(id));
    out
}

/// Whether `a` comes before `b`.
pub fn less_id(a: Id, b: Id) -> (less: bool)
    ensures
        less == id_less(a, b),
{
    a.0 < b.0 || (a.0 == b.0 && a.1 < b.1)
}

/// Reads `ms-seq`.
pub fn parse_id(id: &[u8]) -> (r: Option<Id>)
    ensures
        r == spec_parse_id(id@),
{
    match find_byte(45u8, id) {
        Some(p) => {
            proof {
                lemma_first_index_of(id@, 45u8);
            }
            assert(p < id.len());
            let ms = parse_u64(vstd::slice::slice_subrange(id, 0, p));
            let seq = parse_u64(vstd::slice::slice_subrange(id, p + 1, id.len()));
            match (ms, seq) {
                (Some(ms), Some(seq)) => Some((ms, seq)),
                _ => None,
            }
        },
        None => None,
    }
}

/// The identifier for an entry whose identifier, or whose sequence number,
/// the store is to choose: with `cur_ts` the milliseconds are given, without
/// it they are read off the wall clock, `now`.
pub fn generate_id(last: Option<Id>, cur_ts: Option<u64>, now: u64) -> (r: Result<Id, IdError>)
    ensures
        r == (match cur_ts {
            Some(ms) => spec_auto_seq(last, ms),
            None => spec_auto_id(last, now),
        }),
{
    match cur_ts {
        Some(ms) => match last {
            None => Ok(
                (
                    ms,
                    if ms == 0 {
                        1
                    } else {
                        0
                    },
                ),
            ),
            Some((last_ms, last_seq)) => {
                if ms == last_ms {
                    if last_seq < u64::MAX {
                        Ok((ms, last_seq + 1))
                    } else {
                        Err(IdError::NotAfterTop)
                    }
                } else if ms > last_ms {
                    Ok((ms, 0))
                } else {
                    Err(IdError::NotAfterTop)
                }
            },
        },
        None => match last {
            None => Ok((now, 0)),
            Some((last_ms, last_seq)) => {
                if now > last_ms {
                    Ok((now, 0))
                } else if last_seq < u64::MAX {
                    Ok((last_ms, last_seq + 1))
                } else if last_ms < u64::MAX {
                    Ok((last_ms + 1, 0))
                } else {
                    Err(IdError::NotAfterTop)
                }
            },
        },
    }
}

/// Checks an identifier that the client gave in full: it is not `0-0`, and
/// it lies behind the stream's last one.
pub fn validate_key(last: Option<Id>, id: Id) -> (r: Result<Id, IdError>)
    ensures
        r == spec_validate(last, id),
{
    if id.0 == 0 && id.1 == 0 {
        return Err(IdError::Zero);
    }
    match last {
        Some(top) => {
            if less_id(top, id) {
                Ok(id)
            } else {
                Err(IdError::NotAfterTop)
            }
        },
        None => Ok(id),
    }
}

/// The identifier that `XADD` gives an entry.
pub fn resolve_id(last: Option<Id>, id: &[u8], now: u64) -> (r: Result<Id, IdError>)
    ensures
        r == spec_resolve_id(last, id@, now),
{
    if crate::buffer::same_bytes(id, "*".as_bytes()) {
        return generate_id(last, None, now);
    }
    match find_byte(45u8, id) {
        Some(p) => {
            proof {
                lemma_first_index_of(id@, 45u8);
            }
            assert(p < id.len());
            let seq_text = vstd::slice::slice_subrange(id, p + 1, id.len());
            match parse_u64(vstd::slice::slice_subrange(id, 0, p)) {
                Some(ms) => {
                    if crate::buffer::same_bytes(seq_text, "*".as_bytes()) {
                        generate_id(last, Some(ms), now)
                    } else {
                        match parse_u64(seq_text) {
                            Some(seq) => validate_key(last, (ms, seq)),
                            None => Err(IdError::Invalid),
                        }
                    }
                },
                None => Err(IdError::Invalid),
            }
        },
        None => Err(IdError::Invalid),
    }
}

/// The reply that goes with a refusal.
pub fn id_error_reply(e: IdError) -> (r: RedisValueRef)
    ensures
        r@ == Resp::Error(spec_id_error_text(e)),
{
    match e {
        IdError::Invalid => RedisValueRef::Error(
            bytes_from_text("ERR Invalid stream ID specified as stream command argument"),
        ),
        IdError::Zero => RedisValueRef::Error(
            bytes_from_text("ERR The ID specified in XADD must be greater than 0-0"),
        ),
        IdError::NotAfterTop => RedisValueRef::Error(
            bytes_from_text(
                "ERR The ID specified in XADD is equal or smaller than the target stream top item",
            ),
        ),
    }
}

/// The entries of one stream.
pub struct StreamKV {
    entries: Vec<StreamEntry>,
}

impl StreamKV {
    /// The entries, oldest first.
    pub closed spec fn view(&self) -> Seq<EntryView> {
        Seq::new(self.entries@.len(), |i: int| self.entries@[i]@)
    }

    /// The identifiers grow from each entry to the next.
    pub open spec fn wf(&self) -> bool {
        ascending(self@)
    }

    pub fn new() -> (s: Self)
        ensures
            s.wf(),
            s@ == Seq::<EntryView>::empty(),
    {
        let s = StreamKV { entries: Vec::new() };
        assert(s@ =~= Seq::<EntryView>::empty());
        s
    }

    /// The identifier of the last entry.
    pub fn last(&self) -> (id: Option<Id>)
        ensures
            id == last_id(self@),
    {
        let n = self.entries.len();
        if n == 0 {
            None
        } else {
            Some(self.entries[n - 1].id)
        }
    }

    /// Appends an entry, whose identifier lies behind the last one.
    pub fn push(&mut self, id: Id, fields: Vec<(Bytes, Bytes)>)
        requires
            old(self).wf(),
            last_id(old(self)@) matches Some(top) ==> id_less(top, id),
        ensures
            final(self).wf(),
            final(self)@ == old(self)@.push(EntryView { id, fields: fields_view(fields@) }),
    {
        self.entries.push(StreamEntry { id, fields });
        proof {
            let before = old(self)@;
            let after = self@;
            assert(after =~= before.push(EntryView { id, fields: fields_view(fields@) }));
            assert forall|i: int, j: int| 0 <= i < j < after.len() implies id_less(
                (#[trigger] after[i]).id,
                (#[trigger] after[j]).id,
            ) by {
                if j < before.len() {
                    assert(id_less(before[i].id, before[j].id));
                } else if i < before.len() - 1 {
                    assert(id_less(before[i].id, before[before.len() - 1].id));
                }
            }
        }
    }

    /// The entries in the span, as replies.
    pub fn replies(&self, lo: Id, open: bool, hi: Id) -> (res: Vec<RedisValueRef>)
        ensures
            views(res@) == replies_in(self@, self@.len(), lo, open, hi),
    {
        let mut res: Vec<RedisValueRef> = Vec::new();
        let mut i: usize = 0;
        assert(views(res@) =~= replies_in(self@, 0, lo, open, hi));
        while i < self.entries.len()
            invariant
                i <= self.entries@.len(),
                views(res@) == replies_in(self@, i as nat, lo, open, hi),
            decreases self.entries@.len() - i,
        {
            let entry = &self.entries[i];
            let above = if open {
                less_id(lo, entry.id)
            } else {
                !less_id(entry.id, lo)
            };
            let ghost before = views(res@);
            assert(self@[i as int] == entry@);
            if above && !less_id(hi, entry.id) {
                res.push(entry.reply());
                assert(views(res@) =~= before.push(entry_reply(entry@)));
            }
            i = i + 1;
        }
        res
    }
}

/// How a blocking read starts.
pub enum XreadStart {
    /// The reply: entries were there, or there is no stream to wait for.
    Ready(RedisValueRef),
    /// Nothing was there. The client is queued at the first stream, and
    /// waits on this handle.
    Wait(Receiver<bool>),
}

/// The reply of a read, once it is known what was found.
pub open spec fn found_or_null(found: Seq<Resp>) -> Resp {
    if found.len() > 0 {
        Resp::Array(found)
    } else {
        Resp::NullArray
    }
}

pub struct Stream {
    streams: ByteMap<StreamKV>,
    blocked: WaiterQueues,
}

impl Stream {
    pub closed spec fn wf(&self) -> bool {
        &&& self.streams.wf()
        &&& self.blocked.wf()
        &&& forall|k: Seq<u8>| #[trigger]
            self.streams@.contains_key(k) ==> self.streams@[k].wf() && self.streams@[k]@.len() > 0
    }

    /// The streams, by key.
    pub closed spec fn view(&self) -> Streams {
        self.streams@.map_values(|s: StreamKV| s@)
    }

    /// In every stream the identifiers grow from each entry to the next, and
    /// no stream is without entries.
    pub proof fn lemma_streams_ascend(&self)
        requires
            self.wf(),
        ensures
            forall|k: Seq<u8>| #[trigger]
                self@.contains_key(k) ==> ascending(self@[k]) && self@[k].len() > 0,
    {
        assert forall|k: Seq<u8>| #[trigger] self@.contains_key(k) implies ascending(self@[k])
            && self@[k].len() > 0 by {
            assert(self.streams@.contains_key(k));
        }
    }

    /// The clients that wait, by key and in the order in which they came.
    pub closed spec fn waiters(&self) -> Map<Seq<u8>, Seq<Sender<bool>>> {
        self.blocked@
    }

    pub fn new() -> (store: Self)
        ensures
            store.wf(),
            store@ == Streams::empty(),
            store.waiters() == Map::<Seq<u8>, Seq<Sender<bool>>>::empty(),
    {
        let store = Stream { streams: ByteMap::new(), blocked: WaiterQueues::new() };
        assert(store@ =~= Streams::empty());
        store
    }

    /// What a successful `XADD` does to the waiters of its key: handles leave
    /// the front of the queue, at least one if there was any, the last of
    /// them signalled unless the queue ran out.
    pub open spec fn woke(before: &Stream, after: &Stream, k: Seq<u8>) -> bool {
        &&& after.waiters().remove(k) == before.waiters().remove(k)
        &&& is_rest_of(queue_of(after.waiters(), k), queue_of(before.waiters(), k))
        &&& queue_of(before.waiters(), k).len() > 0 ==> queue_of(after.waiters(), k).len()
            < queue_of(before.waiters(), k).len()
    }

    /// `XADD`: appends an entry to the stream under `stream_key`, which is
    /// made if there is none, and replies with the entry's identifier. The
    /// identifier is `stream_id`, or is chosen where `stream_id` leaves it
    /// open; `now` is the wall clock in milliseconds. One client that waits
    /// for the stream is woken. An identifier that cannot be given is
    /// refused: the reply says why, and nothing changes.
    pub fn xadd(&mut self, stream_key: Bytes, stream_id: Bytes, kv: Vec<Bytes>, now: u64) -> (reply:
        RedisValueRef)
        requires
            old(self).wf(),
        ensures
            final(self).wf(),
            match spec_xadd(
                queue_of(old(self)@, contents(stream_key)),
                contents(stream_id),
                all_contents(kv@),
                now,
            ) {
                Ok((entries, id)) => {
                    &&& final(self)@ == old(self)@.insert(contents(stream_key), entries)
                    &&& reply@ == Resp::BulkString(spec_format_id(id))
                    &&& Self::woke(old(self), final(self), contents(stream_key))
                },
                Err(e) => {
                    &&& final(self)@ == old(self)@
                    &&& reply@ == Resp::Error(spec_id_error_text(e))
                    &&& final(self).waiters() == old(self).waiters()
                },
            },
    {
        let ghost k = contents(stream_key);
        let last = match self.streams.get(bytes_of(&stream_key)) {
            Some(stream) => stream.last(),
            None => None,
        };
        proof {
            lemma_given_after_top(last, contents(stream_id), now);
        }
        match resolve_id(last, bytes_of(&stream_id), now) {
            Ok(id) => {
                let mut stream = match self.streams.remove(bytes_of(&stream_key)) {
                    Some(stream) => stream,
                    None => StreamKV::new(),
                };
                stream.push(id, field_map(&kv));
                let ghost entries = stream@;
                self.streams.insert(stream_key.clone(), stream);
                assert(self@ =~= old(self)@.insert(k, entries));
                let woken = self.blocked.wake_one(&stream_key);
                proof {
                    let before = queue_of(old(self).waiters(), k);
                    let rest = before.skip(woken.taken as int);
                    self.blocked.lemma_no_empty_queue();
                    assert(queue_of(self.waiters(), k) =~= rest);
                    assert(self.waiters().remove(k) =~= old(self).waiters().remove(k));
                }
                RedisValueRef::BulkString(bytes_from_vec(format_id(id)))
            },
            Err(e) => id_error_reply(e),
        }
    }

    /// Whether `stream_key` has a stream.
    pub fn contains(&self, stream_key: &Bytes) -> (b: bool)
        requires
            self.wf(),
        ensures
            b == self@.contains_key(contents(*stream_key)),
    {
        self.streams.contains_key(bytes_of(stream_key))
    }

    /// `XRANGE`: the entries of the stream from `start` to `end`.
    pub fn xrange(&self, stream_id: &Bytes, start: &Bytes, end: &Bytes) -> (res: Vec<RedisValueRef>)
        requires
            self.wf(),
        ensures
            views(res@) == spec_xrange(
                queue_of(self@, contents(*stream_id)),
                contents(*start),
                contents(*end),
            ),
    {
        let lo = if holds_text(start, "-") {
            Some((0u64, 0u64))
        } else {
            parse_id(bytes_of(start))
        };
        let hi = if holds_text(end, "+") {
            Some((u64::MAX, u64::MAX))
        } else {
            parse_id(bytes_of(end))
        };
        match (lo, hi) {
            (Some(lo), Some(hi)) => match self.streams.get(bytes_of(stream_id)) {
                Some(stream) => stream.replies(lo, false, hi),
                None => {
                    let res: Vec<RedisValueRef> = Vec::new();
                    assert(views(res@) =~= replies_in(Seq::<EntryView>::empty(), 0, lo, false, hi));
                    res
                },
            },
            _ => {
                let res: Vec<RedisValueRef> = Vec::new();
                assert(views(res@) =~= Seq::<Resp>::empty());
                res
            },
        }
    }

    /// The entries of one stream behind `from`, as replies.
    fn read_stream(&self, stream_key: &Bytes, from: &Bytes) -> (res: Vec<RedisValueRef>)
        requires
            self.wf(),
        ensures
            views(res@) == spec_read_stream(
                queue_of(self@, contents(*stream_key)),
                contents(*from),
            ),
    {
        let stream = self.streams.get(bytes_of(stream_key));
        let after = if holds_text(from, "$") {
            match stream {
                Some(stream) => match stream.last() {
                    Some(id) => Some(id),
                    None => Some((0u64, 0u64)),
                },
                None => Some((0u64, 0u64)),
            }
        } else {
            parse_id(bytes_of(from))
        };
        match (after, stream) {
            (Some(after), Some(stream)) => stream.replies(after, true, (u64::MAX, u64::MAX)),
            (Some(after), None) => {
                let res: Vec<RedisValueRef> = Vec::new();
                assert(views(res@) =~= replies_in(
                    Seq::<EntryView>::empty(),
                    0,
                    after,
                    true,
                    top_id(),
                ));
                res
            },
            _ => {
                let res: Vec<RedisValueRef> = Vec::new();
                assert(views(res@) =~= Seq::<Resp>::empty());
                res
            },
        }
    }

    /// `XREAD`: for each stream of `kv` that has entries behind the
    /// identifier given with it, the stream's key and those entries. `kv`
    /// holds keys and identifiers in turn.
    pub fn xread(&self, kv: &Vec<Bytes>) -> (res: Vec<RedisValueRef>)
        requires
            self.wf(),
        ensures
            views(res@) == spec_xread(self@, all_contents(kv@)),
    {
        let mut res: Vec<RedisValueRef> = Vec::new();
        let pairs: usize = kv.len() / 2;
        let mut i: usize = 0;
        assert(views(res@) =~= spec_xread_upto(self@, all_contents(kv@), 0));
        while i < pairs
            invariant
                self.wf(),
                i <= pairs,
                pairs == kv.len() / 2,
                views(res@) == spec_xread_upto(self@, all_contents(kv@), i as nat),
            decreases pairs - i,
        {
            let stream_key = &kv[2 * i];
            let found = self.read_stream(stream_key, &kv[2 * i + 1]);
            let ghost before = views(res@);
            if found.len() > 0 {
                let mut pair: Vec<RedisValueRef> = Vec::new();
                pair.push(RedisValueRef::BulkString(stream_key.clone()));
                proof {
                    lemma_array_view(found);
                }
                let ghost entries = views(found@);
                pair.push(RedisValueRef::Array(found));
                proof {
                    lemma_array_view(pair);
                    assert(views(pair@) =~= seq![
                        Resp::BulkString(contents(*stream_key)),
                        Resp::Array(entries),
                    ]);
                }
                res.push(RedisValueRef::Array(pair));
                assert(views(res@) =~= before.push(
                    Resp::Array(
                        seq![Resp::BulkString(contents(*stream_key)), Resp::Array(entries)],
                    ),
                ));
            }
            i = i + 1;
        }
        res
    }

    /// Blocking `XREAD`, first step: what `XREAD` finds, if it finds
    /// anything. If not, the client is queued behind the waiters of the
    /// first stream of `kv`, and is to wait on the handle returned, up to its
    /// timeout. Without any stream to wait for, the reply is the null array.
    pub fn blocking_xread(&mut self, kv: &Vec<Bytes>) -> (start: XreadStart)
        requires
            old(self).wf(),
        ensures
            final(self).wf(),
            final(self)@ == old(self)@,
            spec_xread(old(self)@, all_contents(kv@)).len() > 0 ==> {
                &&& start matches XreadStart::Ready(v)
                &&& v@ == Resp::Array(spec_xread(old(self)@, all_contents(kv@)))
                &&& final(self).waiters() == old(self).waiters()
            },
            spec_xread(old(self)@, all_contents(kv@)).len() == 0 && kv@.len() == 0 ==> {
                &&& start matches XreadStart::Ready(v)
                &&& v@ == Resp::NullArray
                &&& final(self).waiters() == old(self).waiters()
            },
            spec_xread(old(self)@, all_contents(kv@)).len() == 0 && kv@.len() > 0 ==> {
                &&& start is Wait
                &&& final(self).waiters().remove(contents(kv@[0])) == old(self).waiters().remove(
                    contents(kv@[0]),
                )
                &&& queue_of(final(self).waiters(), contents(kv@[0])).drop_last() == queue_of(
                    old(self).waiters(),
                    contents(kv@[0]),
                )
                &&& queue_of(final(self).waiters(), contents(kv@[0])).len() == queue_of(
                    old(self).waiters(),
                    contents(kv@[0]),
                ).len() + 1
            },
    {
        let found = self.xread(kv);
        if found.len() > 0 {
            proof {
                lemma_array_view(found);
            }
            return XreadStart::Ready(RedisValueRef::Array(found));
        }
        if kv.len() == 0 {
            return XreadStart::Ready(RedisValueRef::NullArray);
        }
        XreadStart::Wait(self.blocked.register(&kv[0]))
    }

    /// Blocking `XREAD`, second step, once the wait is over. A client that
    /// was signalled reads again; if it finds nothing, or the wait ended
    /// without signal, the reply is the null array. After a timeout the
    /// handles of clients that have gone are dropped from the queue of the
    /// first stream.
    pub fn blocking_xread_resume(&mut self, kv: &Vec<Bytes>, outcome: WaitOutcome) -> (reply:
        RedisValueRef)
        requires
            old(self).wf(),
        ensures
            final(self).wf(),
            final(self)@ == old(self)@,
            reply@ == (if outcome == WaitOutcome::Signalled {
                found_or_null(spec_xread(old(self)@, all_contents(kv@)))
            } else {
                Resp::NullArray
            }),
            outcome != WaitOutcome::TimedOut || kv@.len() == 0 ==> final(self).waiters() == old(
                self,
            ).waiters(),
            outcome == WaitOutcome::TimedOut && kv@.len() > 0 ==> {
                &&& final(self).waiters().remove(contents(kv@[0])) == old(self).waiters().remove(
                    contents(kv@[0]),
                )
                &&& queue_of(final(self).waiters(), contents(kv@[0])).len() <= queue_of(
                    old(self).waiters(),
                    contents(kv@[0]),
                ).len()
            },
    {
        match outcome {
            WaitOutcome::Signalled => {
                let found = self.xread(kv);
                if found.len() > 0 {
                    proof {
                        lemma_array_view(found);
                    }
                    RedisValueRef::Array(found)
                } else {
                    RedisValueRef::NullArray
                }
            },
            WaitOutcome::TimedOut => {
                if kv.len() > 0 {
                    self.blocked.forget_closed(&kv[0]);
                }
                RedisValueRef::NullArray
            },
            WaitOutcome::ChannelLost => RedisValueRef::NullArray,
        }
    }
}

/// The wall clock, in milliseconds since the Unix epoch
/// (`std::time::SystemTime::now`); 0 for a clock that stands before the
/// epoch. Nothing is claimed of the value.
#[verifier::external_body]
pub fn current_unix_timestamp_ms() -> (now: u64) {
    std::time::SystemTime::now().duration_since(std::time::UNIX_EPOCH).map(
        |d| d.as_millis() as u64,
    ).unwrap_or(0)
}

} // verus!
