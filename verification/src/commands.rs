//! Commands: what a client may ask for, and how a frame is read as one.

use crate::buffer::all_contents;
use crate::buffer::bytes_of;
use crate::buffer::contents;
use crate::buffer::same_bytes;
use crate::buffer::share_from;
use crate::buffer::text;
use crate::decimal::parse_i64;
use crate::decimal::parse_u64;
use crate::decimal::spec_parse_i64;
use crate::decimal::spec_parse_u64;
use crate::resp::views;
use crate::resp::RedisValueRef;
use crate::resp::Resp;
use crate::buffer::bytes_from_text;
use crate::buffer::bytes_from_slice;
use crate::clock::Clock;
use crate::engine::executed;
use crate::engine::executed_then;
use crate::engine::handled;
use crate::engine::pushed;
use crate::engine::ran;
use crate::engine::ran_queue;
use crate::engine::resumed;
use crate::engine::spec_command_error_text;
use crate::engine::with_reply;
use crate::engine::woken;
use crate::engine::Outcome;
use crate::engine::Progress;
use crate::lists::BlpopStart;
use crate::redis::EngineView;
use crate::redis::Redis;
use crate::resp::lemma_array_view;
use crate::streams::XreadStart;
use crate::waiters::queue_of;
use crate::waiters::WaitOutcome;
use bytes::Bytes;
use std::collections::VecDeque;
use tokio::sync::oneshot::Receiver;
use vstd::prelude::*;

verus! {

/// The timeout, in milliseconds, that stands for "wait without limit".
pub const DAY_MS: u64 = 86_400_000;

/// A request, with its arguments typed.
#[allow(inconsistent_fields)]
pub enum Command {
    Ping,
    Echo(Bytes),
    SET { key: Bytes, value: Bytes, expiry: Option<(Bytes, i64)> },
    Get(Bytes),
    RPUSH { key: Bytes, values: Vec<Bytes> },
    LPUSH { key: Bytes, values: Vec<Bytes> },
    LLEN(Bytes),
    LRANGE { key: Bytes, start: i64, end: i64 },
    LPOP { key: Bytes, count: usize },
    /// `timeout` is the number of seconds as the client wrote it.
    BLPOP { key: Bytes, timeout: Bytes },
    TYPE(Bytes),
    XADD { key: Bytes, id: Bytes, kv: Vec<Bytes> },
    XRANGE { key: Bytes, start: Bytes, end: Bytes },
    /// `timeout` is in milliseconds and never zero; `key_stream_start` holds
    /// each stream's key followed by the identifier to read from.
    XREAD { to_block: Bytes, timeout: Option<u64>, key_stream_start: Vec<Bytes> },
    INCR(Bytes),
    MULTI,
    EXEC,
    DISCARD,
    CONFIG { dir: bool, dbfilename: bool },
    KEYS(Bytes),
    INFO(Bytes),
    REPLCONF(Bytes),
}

/// The mathematical value of a `Command`.
#[allow(inconsistent_fields)]
pub enum CommandView {
    Ping,
    Echo(Seq<u8>),
    SET { key: Seq<u8>, value: Seq<u8>, expiry: Option<(Seq<u8>, i64)> },
    Get(Seq<u8>),
    RPUSH { key: Seq<u8>, values: Seq<Seq<u8>> },
    LPUSH { key: Seq<u8>, values: Seq<Seq<u8>> },
    LLEN(Seq<u8>),
    LRANGE { key: Seq<u8>, start: i64, end: i64 },
    LPOP { key: Seq<u8>, count: usize },
    BLPOP { key: Seq<u8>, timeout: Seq<u8> },
    TYPE(Seq<u8>),
    XADD { key: Seq<u8>, id: Seq<u8>, kv: Seq<Seq<u8>> },
    XRANGE { key: Seq<u8>, start: Seq<u8>, end: Seq<u8> },
    XREAD { to_block: Seq<u8>, timeout: Option<u64>, key_stream_start: Seq<Seq<u8>> },
    INCR(Seq<u8>),
    MULTI,
    EXEC,
    DISCARD,
    CONFIG { dir: bool, dbfilename: bool },
    KEYS(Seq<u8>),
    INFO(Seq<u8>),
    REPLCONF(Seq<u8>),
}

impl Command {
    pub open spec fn view(&self) -> CommandView {
        match self {
            Command::Ping => CommandView::Ping,
            Command::Echo(m) => CommandView::Echo(contents(*m)),
            Command::SET { key, value, expiry } => CommandView::SET {
                key: contents(*key),
                value: contents(*value),
                expiry: match expiry {
                    Some((mode, amount)) => Some((contents(*mode), *amount)),
                    None => None,
                },
            },
            Command::Get(k) => CommandView::Get(contents(*k)),
            Command::RPUSH { key, values } => CommandView::RPUSH {
                key: contents(*key),
                values: all_contents(values@),
            },
            Command::LPUSH { key, values } => CommandView::LPUSH {
                key: contents(*key),
                values: all_contents(values@),
            },
            Command::LLEN(k) => CommandView::LLEN(contents(*k)),
            Command::LRANGE { key, start, end } => CommandView::LRANGE {
                key: contents(*key),
                start: *start,
                end: *end,
            },
            Command::LPOP { key, count } => CommandView::LPOP { key: contents(*key), count: *count },
            Command::BLPOP { key, timeout } => CommandView::BLPOP {
                key: contents(*key),
                timeout: contents(*timeout),
            },
            Command::TYPE(k) => CommandView::TYPE(contents(*k)),
            Command::XADD { key, id, kv } => CommandView::XADD {
                key: contents(*key),
                id: contents(*id),
                kv: all_contents(kv@),
            },
            Command::XRANGE { key, start, end } => CommandView::XRANGE {
                key: contents(*key),
                start: contents(*start),
                end: contents(*end),
            },
            Command::XREAD { to_block, timeout, key_stream_start } => CommandView::XREAD {
                to_block: contents(*to_block),
                timeout: *timeout,
                key_stream_start: all_contents(key_stream_start@),
            },
            Command::INCR(k) => CommandView::INCR(contents(*k)),
            Command::MULTI => CommandView::MULTI,
            Command::EXEC => CommandView::EXEC,
            Command::DISCARD => CommandView::DISCARD,
            Command::CONFIG { dir, dbfilename } => CommandView::CONFIG {
                dir: *dir,
                dbfilename: *dbfilename,
            },
            Command::KEYS(p) => CommandView::KEYS(contents(*p)),
            Command::INFO(s) => CommandView::INFO(contents(*s)),
            Command::REPLCONF(s) => CommandView::REPLCONF(contents(*s)),
        }
    }
}

/// Why a frame is not a command.
#[derive(Debug, Clone, Copy, PartialEq, Eq, Structural)]
pub enum CommandError {
    /// The frame is empty, or one of its items is not a bulk string.
    NotBulkStrings,
    /// The first item names no command.
    UnknownCommand,
    /// Arguments are missing, or there are too many.
    WrongArity,
    /// An argument that must be a number is none, or is out of range.
    BadArgument,
}

pub open spec fn upper_byte(b: u8) -> u8 {
    if 97 <= b <= 122 {
        (b - 32) as u8
    } else {
        b
    }
}

/// The text with its ASCII letters in upper case.
pub open spec fn upper(s: Seq<u8>) -> Seq<u8> {
    Seq::new(s.len(), |i: int| upper_byte(s[i]))
}

/// The byte strings of a frame's items, if the frame has items and all of
/// them are bulk strings.
pub open spec fn bulk_arguments(items: Seq<Resp>) -> Option<Seq<Seq<u8>>> {
    if items.len() > 0 && (forall|i: int| 0 <= i < items.len() ==> #[trigger] items[i] is BulkString) {
        Some(Seq::new(items.len(), |i: int| items[i]->BulkString_0))
    } else {
        None
    }
}

/// A command whose one argument is `a[at]`.
pub open spec fn with_argument(
    a: Seq<Seq<u8>>,
    at: int,
    make: spec_fn(Seq<u8>) -> CommandView,
) -> Result<CommandView, CommandError> {
    if at < a.len() {
        Ok(make(a[at]))
    } else {
        Err(CommandError::WrongArity)
    }
}

pub open spec fn spec_parse_set(a: Seq<Seq<u8>>) -> Result<CommandView, CommandError> {
    if a.len() < 3 {
        Err(CommandError::WrongArity)
    } else if a.len() == 5 {
        match spec_parse_i64(a[4]) {
            Some(amount) => Ok(
                CommandView::SET { key: a[1], value: a[2], expiry: Some((a[3], amount)) },
            ),
            None => Err(CommandError::BadArgument),
        }
    } else {
        Ok(CommandView::SET { key: a[1], value: a[2], expiry: None })
    }
}

pub open spec fn spec_parse_lrange(a: Seq<Seq<u8>>) -> Result<CommandView, CommandError> {
    if a.len() != 4 {
        Err(CommandError::WrongArity)
    } else {
        match (spec_parse_i64(a[2]), spec_parse_i64(a[3])) {
            (Some(start), Some(end)) => Ok(CommandView::LRANGE { key: a[1], start, end }),
            _ => Err(CommandError::BadArgument),
        }
    }
}

pub open spec fn spec_parse_lpop(a: Seq<Seq<u8>>) -> Result<CommandView, CommandError> {
    if a.len() < 2 {
        Err(CommandError::WrongArity)
    } else if a.len() == 3 {
        match spec_parse_u64(a[2]) {
            Some(count) => if count <= usize::MAX {
                Ok(CommandView::LPOP { key: a[1], count: count as usize })
            } else {
                Err(CommandError::BadArgument)
            },
            None => Err(CommandError::BadArgument),
        }
    } else {
        Ok(CommandView::LPOP { key: a[1], count: 1 })
    }
}

/// The keys and identifiers of `XREAD`, which arrive as all keys followed by
/// all identifiers, laid out as key, identifier, key, identifier.
pub open spec fn interleave(a: Seq<Seq<u8>>, start: int, n: int) -> Seq<Seq<u8>> {
    Seq::new(
        (2 * n) as nat,
        |j: int|
            if j % 2 == 0 {
                a[start + j / 2]
            } else {
                a[start + n + j / 2]
            },
    )
}

pub open spec fn spec_parse_xread(a: Seq<Seq<u8>>) -> Result<CommandView, CommandError> {
    if a.len() < 2 {
        Err(CommandError::WrongArity)
    } else if upper(a[1]) == text("BLOCK") {
        if a.len() < 4 {
            Err(CommandError::WrongArity)
        } else {
            match spec_parse_u64(a[2]) {
                Some(ms) => Ok(
                    CommandView::XREAD {
                        to_block: a[1],
                        timeout: Some(
                            if ms == 0 {
                                DAY_MS
                            } else {
                                ms
                            },
                        ),
                        key_stream_start: interleave(a, 4, (a.len() - 4) / 2),
                    },
                ),
                None => Err(CommandError::BadArgument),
            }
        }
    } else {
        Ok(
            CommandView::XREAD {
                to_block: a[1],
                timeout: None,
                key_stream_start: interleave(a, 2, (a.len() - 2) / 2),
            },
        )
    }
}

/// The command that the byte strings `a` spell, the first of them being the
/// command's name in any mix of upper and lower case.
#[verifier::opaque]
pub open spec fn spec_parse_arguments(a: Seq<Seq<u8>>) -> Result<CommandView, CommandError> {
    let name = upper(a[0]);
    if name == text("PING") {
        Ok(CommandView::Ping)
    } else if name == text("ECHO") {
        with_argument(a, 1, |m: Seq<u8>| CommandView::Echo(m))
    } else if name == text("SET") {
        spec_parse_set(a)
    } else if name == text("GET") {
        with_argument(a, 1, |k: Seq<u8>| CommandView::Get(k))
    } else if name == text("RPUSH") {
        with_argument(a, 1, |k: Seq<u8>| CommandView::RPUSH { key: k, values: a.skip(2) })
    } else if name == text("LRANGE") {
        spec_parse_lrange(a)
    } else if name == text("LPUSH") {
        with_argument(a, 1, |k: Seq<u8>| CommandView::LPUSH { key: k, values: a.skip(2) })
    } else if name == text("LLEN") {
        with_argument(a, 1, |k: Seq<u8>| CommandView::LLEN(k))
    } else if name == text("LPOP") {
        spec_parse_lpop(a)
    } else if name == text("BLPOP") {
        with_argument(a, 2, |t: Seq<u8>| CommandView::BLPOP { key: a[1], timeout: t })
    } else if name == text("TYPE") {
        with_argument(a, 1, |k: Seq<u8>| CommandView::TYPE(k))
    } else if name == text("XADD") {
        with_argument(a, 2, |id: Seq<u8>| CommandView::XADD { key: a[1], id, kv: a.skip(3) })
    } else if name == text("XRANGE") {
        if a.len() == 4 {
            Ok(CommandView::XRANGE { key: a[1], start: a[2], end: a[3] })
        } else {
            Err(CommandError::WrongArity)
        }
    } else if name == text("XREAD") {
        spec_parse_xread(a)
    } else if name == text("INCR") {
        with_argument(a, 1, |k: Seq<u8>| CommandView::INCR(k))
    } else if name == text("CONFIG") {
        with_argument(
            a,
            2,
            |k: Seq<u8>|
                CommandView::CONFIG { dir: k == text("dir"), dbfilename: k == text("dbfilename") },
        )
    } else if name == text("KEYS") {
        with_argument(a, 1, |p: Seq<u8>| CommandView::KEYS(p))
    } else if name == text("INFO") {
        with_argument(a, 1, |s: Seq<u8>| CommandView::INFO(s))
    } else if name == text("REPLCONF") {
        with_argument(a, 2, |s: Seq<u8>| CommandView::REPLCONF(s))
    } else if name == text("MULTI") {
        Ok(CommandView::MULTI)
    } else if name == text("EXEC") {
        Ok(CommandView::EXEC)
    } else if name == text("DISCARD") {
        Ok(CommandView::DISCARD)
    } else {
        Err(CommandError::UnknownCommand)
    }
}

/// The command that a frame's items spell.
pub open spec fn spec_parse_command(items: Seq<Resp>) -> Result<CommandView, CommandError> {
    match bulk_arguments(items) {
        Some(a) => spec_parse_arguments(a),
        None => Err(CommandError::NotBulkStrings),
    }
}

/// Whether `r` is the command, or the error, that `expected` says.
pub open spec fn is_parsed(r: Result<Command, CommandError>, expected: Result<
    CommandView,
    CommandError,
>) -> bool {
    match expected {
        Ok(view) => r matches Ok(command) && command@ == view,
        Err(e) => r matches Err(got) && got == e,
    }
}

/// The text with its ASCII letters in upper case.
pub fn to_upper(s: &[u8]) -> (u: Vec<u8>)
    ensures
        u@ == upper(s@),
{
    let mut u: Vec<u8> = Vec::new();
    let mut i: usize = 0;
    while i < s.len()
        invariant
            i <= s@.len(),
            u@.len() == i,
            forall|j: int| 0 <= j < i ==> u@[j] == upper_byte(s@[j]),
        decreases s@.len() - i,
    {
        let b = s[i];
        if 97 <= b && b <= 122 {
            u.push(b - 32);
        } else {
            u.push(b);
        }
        i = i + 1;
    }
    assert(u@ =~= upper(s@));
    u
}

/// Handles to the byte strings of a frame's items.
fn collect_arguments(arr: &[RedisValueRef]) -> (args: Option<Vec<Bytes>>)
    ensures
        match bulk_arguments(views(arr@)) {
            Some(a) => args matches Some(v) && all_contents(v@) == a,
            None => args is None,
        },
{
    let ghost items = views(arr@);
    if arr.len() == 0 {
        return None;
    }
    let mut args: Vec<Bytes> = Vec::new();
    let mut i: usize = 0;
    while i < arr.len()
        invariant
            i <= arr@.len(),
            items == views(arr@),
            args@.len() == i,
            forall|j: int| 0 <= j < i ==> (#[trigger] items[j]) is BulkString && contents(args@[j])
                == items[j]->BulkString_0,
        decreases arr@.len() - i,
    {
        match &arr[i] {
            RedisValueRef::BulkString(b) => {
                args.push(b.clone());
            },
            _ => {
                assert(!(items[i as int] is BulkString));
                return None;
            },
        }
        i = i + 1;
    }
    assert(all_contents(args@) =~= bulk_arguments(items)->Some_0);
    Some(args)
}

fn parse_set(args: &Vec<Bytes>) -> (r: Result<Command, CommandError>)
    ensures
        is_parsed(r, spec_parse_set(all_contents(args@))),
{
    if args.len() < 3 {
        return Err(CommandError::WrongArity);
    }
    let key = args[1].clone();
    let value = args[2].clone();
    if args.len() == 5 {
        match parse_i64(bytes_of(&args[4])) {
            Some(amount) => Ok(Command::SET { key, value, expiry: Some((args[3].clone(), amount)) }),
            None => Err(CommandError::BadArgument),
        }
    } else {
        Ok(Command::SET { key, value, expiry: None })
    }
}

fn parse_lrange(args: &Vec<Bytes>) -> (r: Result<Command, CommandError>)
    ensures
        is_parsed(r, spec_parse_lrange(all_contents(args@))),
{
    if args.len() != 4 {
        return Err(CommandError::WrongArity);
    }
    let start = parse_i64(bytes_of(&args[2]));
    let end = parse_i64(bytes_of(&args[3]));
    match (start, end) {
        (Some(start), Some(end)) => Ok(Command::LRANGE { key: args[1].clone(), start, end }),
        _ => Err(CommandError::BadArgument),
    }
}

fn parse_lpop(args: &Vec<Bytes>) -> (r: Result<Command, CommandError>)
    ensures
        is_parsed(r, spec_parse_lpop(all_contents(args@))),
{
    if args.len() < 2 {
        return Err(CommandError::WrongArity);
    }
    if args.len() == 3 {
        match parse_u64(bytes_of(&args[2])) {
            Some(count) => {
                if count <= usize::MAX as u64 {
                    Ok(Command::LPOP { key: args[1].clone(), count: count as usize })
                } else {
                    Err(CommandError::BadArgument)
                }
            },
            None => Err(CommandError::BadArgument),
        }
    } else {
        Ok(Command::LPOP { key: args[1].clone(), count: 1 })
    }
}

/// Lays out `n` keys from `args[start..]` and the `n` identifiers behind
/// them as key, identifier, key, identifier.
fn pair_up(args: &Vec<Bytes>, start: usize, n: usize) -> (pairs: Vec<Bytes>)
    requires
        start + 2 * n <= args.len(),
    ensures
        all_contents(pairs@) == interleave(all_contents(args@), start as int, n as int),
{
    let mut pairs: Vec<Bytes> = Vec::new();
    let mut i: usize = 0;
    while i < n
        invariant
            i <= n,
            start + 2 * n <= args.len(),
            pairs@.len() == 2 * i,
            forall|j: int|
                0 <= j < 2 * i ==> contents(#[trigger] pairs@[j]) == interleave(
                    all_contents(args@),
                    start as int,
                    n as int,
                )[j],
        decreases n - i,
    {
        pairs.push(args[start + i].clone());
        pairs.push(args[start + n + i].clone());
        i = i + 1;
    }
    assert(all_contents(pairs@) =~= interleave(all_contents(args@), start as int, n as int));
    pairs
}

fn parse_xread(args: &Vec<Bytes>) -> (r: Result<Command, CommandError>)
    ensures
        is_parsed(r, spec_parse_xread(all_contents(args@))),
{
    if args.len() < 2 {
        return Err(CommandError::WrongArity);
    }
    let to_block = args[1].clone();
    let marker = to_upper(bytes_of(&args[1]));
    if same_bytes(marker.as_slice(), "BLOCK".as_bytes()) {
        if args.len() < 4 {
            return Err(CommandError::WrongArity);
        }
        match parse_u64(bytes_of(&args[2])) {
            Some(ms) => {
                let timeout: u64 = if ms == 0 {
                    DAY_MS
                } else {
                    ms
                };
                let n: usize = (args.len() - 4) / 2;
                Ok(
                    Command::XREAD {
                        to_block,
                        timeout: Some(timeout),
                        key_stream_start: pair_up(args, 4, n),
                    },
                )
            },
            None => Err(CommandError::BadArgument),
        }
    } else {
        let n: usize = (args.len() - 2) / 2;
        Ok(Command::XREAD { to_block, timeout: None, key_stream_start: pair_up(args, 2, n) })
    }
}

/// Whether the upper-case name `name` is the text `word`.
fn named(name: &Vec<u8>, word: &str) -> (eq: bool)
    ensures
        eq == (name@ == text(word)),
{
    same_bytes(name.as_slice(), word.as_bytes())
}

/// Reads the byte strings `args`, of which there is at least one, as a
/// command.
pub fn parse_arguments(args: &Vec<Bytes>) -> (r: Result<Command, CommandError>)
    requires
        args@.len() > 0,
    ensures
        is_parsed(r, spec_parse_arguments(all_contents(args@))),
{
    reveal(spec_parse_arguments);
    let ghost a = all_contents(args@);
    let name = to_upper(bytes_of(&args[0]));
    let count = args.len();
    if named(&name, "PING") {
        Ok(Command::Ping)
    } else if named(&name, "ECHO") {
        if count > 1 {
            Ok(Command::Echo(args[1].clone()))
        } else {
            Err(CommandError::WrongArity)
        }
    } else if named(&name, "SET") {
        parse_set(args)
    } else if named(&name, "GET") {
        if count > 1 {
            Ok(Command::Get(args[1].clone()))
        } else {
            Err(CommandError::WrongArity)
        }
    } else if named(&name, "RPUSH") {
        if count > 1 {
            Ok(Command::RPUSH { key: args[1].clone(), values: share_from(args, 2) })
        } else {
            Err(CommandError::WrongArity)
        }
    } else if named(&name, "LRANGE") {
        parse_lrange(args)
    } else if named(&name, "LPUSH") {
        if count > 1 {
            Ok(Command::LPUSH { key: args[1].clone(), values: share_from(args, 2) })
        } else {
            Err(CommandError::WrongArity)
        }
    } else if named(&name, "LLEN") {
        if count > 1 {
            Ok(Command::LLEN(args[1].clone()))
        } else {
            Err(CommandError::WrongArity)
        }
    } else if named(&name, "LPOP") {
        parse_lpop(args)
    } else if named(&name, "BLPOP") {
        if count > 2 {
            Ok(Command::BLPOP { key: args[1].clone(), timeout: args[2].clone() })
        } else {
            Err(CommandError::WrongArity)
        }
    } else if named(&name, "TYPE") {
        if count > 1 {
            Ok(Command::TYPE(args[1].clone()))
        } else {
            Err(CommandError::WrongArity)
        }
    } else if named(&name, "XADD") {
        if count > 2 {
            Ok(
                Command::XADD {
                    key: args[1].clone(),
                    id: args[2].clone(),
                    kv: share_from(args, 3),
                },
            )
        } else {
            Err(CommandError::WrongArity)
        }
    } else if named(&name, "XRANGE") {
        if count == 4 {
            Ok(
                Command::XRANGE {
                    key: args[1].clone(),
                    start: args[2].clone(),
                    end: args[3].clone(),
                },
            )
        } else {
            Err(CommandError::WrongArity)
        }
    } else if named(&name, "XREAD") {
        parse_xread(args)
    } else if named(&name, "INCR") {
        if count > 1 {
            Ok(Command::INCR(args[1].clone()))
        } else {
            Err(CommandError::WrongArity)
        }
    } else if named(&name, "CONFIG") {
        if count > 2 {
            let what = bytes_of(&args[2]);
            Ok(
                Command::CONFIG {
                    dir: same_bytes(what, "dir".as_bytes()),
                    dbfilename: same_bytes(what, "dbfilename".as_bytes()),
                },
            )
        } else {
            Err(CommandError::WrongArity)
        }
    } else if named(&name, "KEYS") {
        if count > 1 {
            Ok(Command::KEYS(args[1].clone()))
        } else {
            Err(CommandError::WrongArity)
        }
    } else if named(&name, "INFO") {
        if count > 1 {
            Ok(Command::INFO(args[1].clone()))
        } else {
            Err(CommandError::WrongArity)
        }
    } else if named(&name, "REPLCONF") {
        if count > 2 {
            Ok(Command::REPLCONF(args[2].clone()))
        } else {
            Err(CommandError::WrongArity)
        }
    } else if named(&name, "MULTI") {
        Ok(Command::MULTI)
    } else if named(&name, "EXEC") {
        Ok(Command::EXEC)
    } else if named(&name, "DISCARD") {
        Ok(Command::DISCARD)
    } else {
        Err(CommandError::UnknownCommand)
    }
}

/// Reads the items of a frame as a command.
///
/// The frame must hold at least one item and bulk strings only. The first
/// names the command, in upper or lower case; the others are its arguments,
/// checked for number and, where they are numbers, for form.
pub fn parse_command(arr: &[RedisValueRef]) -> (r: Result<Command, CommandError>)
    ensures
        is_parsed(r, spec_parse_command(views(arr@))),
{
    match collect_arguments(arr) {
        Some(args) => {
            assert(all_contents(args@).len() == args@.len());
            parse_arguments(&args)
        },
        None => Err(CommandError::NotBulkStrings),
    }
}


/// Whether a frame asks for a replica's resynchronisation: an array whose
/// first item is the bulk string `PSYNC`, in upper or lower case.
pub open spec fn spec_is_psync(value: Resp) -> bool {
    match value {
        Resp::Array(items) => items.len() > 0 && (match items[0] {
            Resp::BulkString(name) => upper(name) == text("PSYNC"),
            _ => false,
        }),
        _ => false,
    }
}

/// Whether a frame asks for a replica's resynchronisation.
pub fn is_psync_command(value: &RedisValueRef) -> (b: bool)
    ensures
        b == spec_is_psync(value@),
{
    match value {
        RedisValueRef::Array(arr) => {
            proof {
                lemma_array_view(*arr);
            }
            if arr.len() == 0 {
                return false;
            }
            assert(views(arr@)[0] == arr@[0]@);
            match &arr[0] {
                RedisValueRef::BulkString(name) => {
                    let word = to_upper(bytes_of(name));
                    same_bytes(word.as_slice(), "PSYNC".as_bytes())
                },
                _ => false,
            }
        },
        _ => false,
    }
}

/// The commands of a run, as mathematical values.
pub open spec fn command_views(q: Seq<Command>) -> Seq<CommandView> {
    Seq::new(q.len(), |i: int| q[i]@)
}

/// What a client waits for.
pub enum Pending {
    /// An element of the list under `key`; `timeout` is the number of
    /// seconds as the client wrote it.
    List { key: Bytes, timeout: Bytes },
    /// Entries of the streams of `kv`; `timeout` is in milliseconds.
    Streams { kv: Vec<Bytes>, timeout: u64 },
}

impl Pending {
    pub open spec fn view(&self) -> Outcome {
        match self {
            Pending::List { key, timeout } => Outcome::WaitList {
                key: contents(*key),
                timeout: contents(*timeout),
            },
            Pending::Streams { kv, timeout } => Outcome::WaitStreams {
                kv: all_contents(kv@),
                timeout: *timeout,
            },
        }
    }
}

/// What running one command came to.
pub enum Executed {
    /// It is done; there may be no reply.
    Reply(Option<RedisValueRef>),
    /// The client was queued as a waiter, and is to wait on `rx`.
    Blocked { on: Pending, rx: Receiver<bool> },
}

/// The mathematical value of an optional reply.
pub open spec fn reply_view(reply: Option<RedisValueRef>) -> Option<Resp> {
    match reply {
        Some(r) => Some(r@),
        None => None,
    }
}

impl Executed {
    pub open spec fn view(&self) -> Outcome {
        match self {
            Executed::Reply(r) => Outcome::Reply(reply_view(*r)),
            Executed::Blocked { on, rx } => on@,
        }
    }
}

/// A handling that waits: what it waits for, and how it goes on.
pub struct Waiting {
    pub on: Pending,
    /// The commands of the transaction that were not run yet.
    pub rest: VecDeque<Command>,
    /// The replies of those that were.
    pub results: Vec<RedisValueRef>,
    /// Whether a transaction is being run at all.
    pub in_exec: bool,
}

impl Waiting {
    pub open spec fn view(&self) -> Progress {
        Progress::Waiting {
            on: self.on@,
            rest: command_views(self.rest@),
            results: views(self.results@),
            in_exec: self.in_exec,
        }
    }
}

/// What handling a frame came to.
pub enum Handled {
    /// It is done; there may be no reply.
    Reply(Option<RedisValueRef>),
    /// The client is to wait on `rx`, up to the timeout of what it waits
    /// for, and the handling is then to be resumed.
    Suspended { waiting: Waiting, rx: Receiver<bool> },
}

impl Handled {
    pub open spec fn view(&self) -> Progress {
        match self {
            Handled::Reply(r) => Progress::Done(reply_view(*r)),
            Handled::Suspended { waiting, rx } => waiting@,
        }
    }
}

/// The reply to a frame that is no command.
pub fn error_reply(e: CommandError) -> (r: RedisValueRef)
    ensures
        r@ == Resp::Error(spec_command_error_text(e)),
{
    match e {
        CommandError::NotBulkStrings => RedisValueRef::Error(
            bytes_from_text("ERR expected array of bulk strings"),
        ),
        CommandError::UnknownCommand => RedisValueRef::Error(bytes_from_text("ERR unknown command")),
        CommandError::WrongArity => RedisValueRef::Error(
            bytes_from_text("ERR wrong number of arguments"),
        ),
        CommandError::BadArgument => RedisValueRef::Error(
            bytes_from_text("ERR value is not an integer or out of range"),
        ),
    }
}

/// `RPUSH` and `LPUSH`.
fn execute_push(key: Bytes, values: Vec<Bytes>, at_tail: bool, redis: &mut Redis) -> (out: Executed)
    requires
        old(redis).wf(),
    ensures
        final(redis).wf(),
        crate::engine::did_push(
            old(redis)@,
            final(redis)@,
            contents(key),
            all_contents(values@),
            at_tail,
            out@,
        ),
{
    let ghost k = contents(key);
    let ghost all = all_contents(values@);
    let ghost a = redis@;
    let mut len: i64 = 0;
    let mut i: usize = 0;
    proof {
        assert(queue_of(a.list_waiters, k).skip(0) =~= queue_of(a.list_waiters, k));
    }
    while i < values.len()
        invariant
            redis.wf(),
            i <= values@.len(),
            k == contents(key),
            all == all_contents(values@),
            a == old(redis)@,
            redis@ == (EngineView {
                lists: pushed(a.lists, k, all, i as nat, at_tail),
                list_waiters: redis@.list_waiters,
                ..a
            }),
            crate::engine::served(a.list_waiters, redis@.list_waiters, k),
            len == (if i == 0 {
                0
            } else {
                crate::lists::spec_len_reply(queue_of(redis@.lists, k).len())
            }),
        decreases values@.len() - i,
    {
        let ghost before = redis@;
        let value = values[i].clone();
        if at_tail {
            len = redis.lists.rpush(&key, value);
        } else {
            len = redis.lists.lpush(&key, value);
        }
        proof {
            let q0 = queue_of(a.list_waiters, k);
            let q1 = queue_of(before.list_waiters, k);
            let q2 = queue_of(redis@.list_waiters, k);
            let n1 = choose|n: int| 0 <= n <= q0.len() && q1 == #[trigger] q0.skip(n);
            let n2 = choose|n: int| 0 <= n <= q1.len() && q2 == #[trigger] q1.skip(n);
            assert(q2 =~= q0.skip(n1 + n2));
            assert(redis@.list_waiters.remove(k) =~= a.list_waiters.remove(k));
        }
        i = i + 1;
    }
    Executed::Reply(Some(RedisValueRef::Int(len)))
}

/// `LPOP`.
fn execute_lpop(key: Bytes, count: usize, redis: &mut Redis) -> (out: Executed)
    requires
        old(redis).wf(),
    ensures
        final(redis).wf(),
        crate::engine::did_lpop(old(redis)@, final(redis)@, contents(key), count, out@),
{
    let ghost popped = crate::lists::spec_lpop(old(redis)@.lists, contents(key), count).1;
    match redis.lists.lpop(&key, count) {
        Some(mut v) => {
            assert(views(v@).len() == v@.len());
            assert(popped->Some_0.len() == v@.len());
            if v.len() == 1 {
                let ghost all = views(v@);
                assert(all[0] == v@[0]@);
                match v.pop() {
                    Some(only) => {
                        assert(only@ == all[0]);
                        assert(all[0] == Resp::BulkString(popped->Some_0[0]));
                        Executed::Reply(Some(only))
                    },
                    None => Executed::Reply(Some(RedisValueRef::NullBulkString)),
                }
            } else {
                proof {
                    lemma_array_view(v);
                }
                Executed::Reply(Some(RedisValueRef::Array(v)))
            }
        },
        None => Executed::Reply(Some(RedisValueRef::NullBulkString)),
    }
}

/// `CONFIG GET`.
fn execute_config(dir: bool, dbfilename: bool, redis: &Redis) -> (r: RedisValueRef)
    ensures
        r@ == crate::engine::config_reply(redis@, dir, dbfilename),
{
    if dir || dbfilename {
        let (name, value) = if dir {
            ("dir", redis.kv.get_dir())
        } else {
            ("dbfilename", redis.kv.get_filename())
        };
        let mut pair: Vec<RedisValueRef> = Vec::new();
        pair.push(RedisValueRef::BulkString(bytes_from_text(name)));
        pair.push(RedisValueRef::BulkString(bytes_from_slice(value.as_str().as_bytes())));
        proof {
            lemma_array_view(pair);
            assert(views(pair@) =~= seq![pair@[0]@, pair@[1]@]);
        }
        RedisValueRef::Array(pair)
    } else {
        RedisValueRef::NullArray
    }
}

/// Runs one command at `clock`, outside any transaction.
///
/// Each command goes to its store. A pop or a read that is to block and
/// finds nothing queues the client as a waiter and hands back the handle to
/// wait on; everything else is done when the call returns.
pub fn execute_command(cmd: Command, redis: &mut Redis, clock: Clock) -> (out: Executed)
    requires
        old(redis).wf(),
    ensures
        final(redis).wf(),
        executed(cmd@, old(redis)@, final(redis)@, clock, out@),
{
    reveal(executed);
    match cmd {
        Command::Ping => Executed::Reply(Some(RedisValueRef::String(bytes_from_text("PONG")))),
        Command::Echo(message) => Executed::Reply(Some(RedisValueRef::String(message))),
        Command::SET { key, value, expiry } => {
            redis.kv.insert_entry(key, value, expiry, clock);
            Executed::Reply(Some(RedisValueRef::String(bytes_from_text("OK"))))
        },
        Command::Get(key) => match redis.kv.get_entry(&key, clock.monotonic_ms) {
            Some(s) => Executed::Reply(Some(RedisValueRef::BulkString(s))),
            None => Executed::Reply(Some(RedisValueRef::NullBulkString)),
        },
        Command::RPUSH { key, values } => execute_push(key, values, true, redis),
        Command::LPUSH { key, values } => execute_push(key, values, false, redis),
        Command::LRANGE { key, start, end } => {
            let items = redis.lists.lrange(&key, start, end);
            proof {
                lemma_array_view(items);
            }
            Executed::Reply(Some(RedisValueRef::Array(items)))
        },
        Command::LLEN(key) => Executed::Reply(Some(RedisValueRef::Int(redis.lists.llen(&key)))),
        Command::LPOP { key, count } => execute_lpop(key, count, redis),
        Command::BLPOP { key, timeout } => match redis.lists.blpop(&key) {
            BlpopStart::Ready(reply) => Executed::Reply(Some(reply)),
            BlpopStart::Wait(rx) => Executed::Blocked { on: Pending::List { key, timeout }, rx },
        },
        Command::TYPE(key) => {
            let name = if redis.kv.contains(&key) {
                "string"
            } else if redis.stream.contains(&key) {
                "stream"
            } else {
                "none"
            };
            Executed::Reply(Some(RedisValueRef::String(bytes_from_text(name))))
        },
        Command::XADD { key, id, kv } => {
            let ghost k = contents(key);
            let reply = redis.stream.xadd(key, id, kv, clock.unix_ms);
            Executed::Reply(Some(reply))
        },
        Command::XRANGE { key, start, end } => {
            let items = redis.stream.xrange(&key, &start, &end);
            proof {
                lemma_array_view(items);
            }
            Executed::Reply(Some(RedisValueRef::Array(items)))
        },
        Command::XREAD { to_block, timeout, key_stream_start } => match timeout {
            Some(ms) => match redis.stream.blocking_xread(&key_stream_start) {
                XreadStart::Ready(reply) => Executed::Reply(Some(reply)),
                XreadStart::Wait(rx) => Executed::Blocked {
                    on: Pending::Streams { kv: key_stream_start, timeout: ms },
                    rx,
                },
            },
            None => {
                let items = redis.stream.xread(&key_stream_start);
                proof {
                    lemma_array_view(items);
                }
                Executed::Reply(Some(RedisValueRef::Array(items)))
            },
        },
        Command::CONFIG { dir, dbfilename } => Executed::Reply(
            Some(execute_config(dir, dbfilename, redis)),
        ),
        Command::INCR(key) => match redis.kv.incr(&key, clock.monotonic_ms) {
            Ok(n) => Executed::Reply(Some(RedisValueRef::Int(n))),
            Err(message) => Executed::Reply(
                Some(RedisValueRef::Error(bytes_from_slice(message.as_str().as_bytes()))),
            ),
        },
        Command::KEYS(pattern) => Executed::Reply(Some(redis.kv.keys(pattern, clock.monotonic_ms))),
        Command::INFO(_section) => Executed::Reply(Some(redis.info.serialize())),
        Command::REPLCONF(_) => Executed::Reply(Some(RedisValueRef::String(bytes_from_text("OK")))),
        Command::MULTI => Executed::Reply(None),
        Command::EXEC => Executed::Reply(None),
        Command::DISCARD => Executed::Reply(None),
    }
}


/// Runs the commands of a transaction one after the other, behind the
/// replies in `results`. The run ends with the array of all replies, or
/// stops at the first command that has to wait.
fn run_queue(queue: VecDeque<Command>, results: Vec<RedisValueRef>, redis: &mut Redis, clock: Clock) -> (out:
    Handled)
    requires
        old(redis).wf(),
    ensures
        final(redis).wf(),
        ran_queue(
            command_views(queue@),
            views(results@),
            old(redis)@,
            final(redis)@,
            clock,
            out@,
        ),
{
    let mut left = queue;
    let mut collected = results;
    let ghost all = command_views(queue@);
    let ghost done = views(results@);
    let ghost a = redis@;
    let ghost mut replies: Seq<Resp> = Seq::empty();
    let ghost mut n: nat = 0;
    proof {
        assert(all.skip(0) =~= all);
        assert(done + replies =~= done);
    }
    loop
        invariant
            redis.wf(),
            a == old(redis)@,
            all == command_views(queue@),
            done == views(results@),
            n <= all.len(),
            command_views(left@) == all.skip(n as int),
            ran(all, n, a, redis@, clock, replies),
            views(collected@) == done + replies,
        decreases left@.len(),
    {
        let ghost before_left = left@;
        proof {
            assert(command_views(left@).len() == left@.len());
            assert(all.skip(n as int).len() == all.len() - n);
        }
        match left.pop_front() {
            None => {
                proof {
                    assert(n == all.len());
                    lemma_array_view(collected);
                }
                return Handled::Reply(Some(RedisValueRef::Array(collected)));
            },
            Some(cmd) => {
                let ghost mid = redis@;
                proof {
                    assert(command_views(before_left)[0] == cmd@);
                    assert(all.skip(n as int)[0] == all[n as int]);
                    assert(all[n as int] == cmd@);
                    assert forall|i: int| 0 <= i < left@.len() implies command_views(left@)[i]
                        == all.skip(n as int + 1)[i] by {
                        assert(left@[i] == before_left[i + 1]);
                        assert(command_views(before_left)[i + 1] == all.skip(n as int)[i + 1]);
                    }
                    assert(command_views(left@) =~= all.skip(n as int + 1));
                }
                match execute_command(cmd, redis, clock) {
                    Executed::Reply(reply) => {
                        let ghost earlier = replies;
                        let ghost at = n;
                        proof {
                            replies = with_reply(earlier, reply_view(reply));
                            n = n + 1;
                            assert(ran(all, (n - 1) as nat, a, mid, clock, earlier));
                            assert(executed_then(
                                all[n - 1],
                                mid,
                                redis@,
                                clock,
                                earlier,
                                reply_view(reply),
                            ));
                            assert(ran(all, n, a, redis@, clock, replies));
                        }
                        match reply {
                            Some(r) => {
                                let ghost had = views(collected@);
                                collected.push(r);
                                proof {
                                    assert(views(collected@) =~= had.push(r@));
                                    assert(replies == earlier.push(r@));
                                    assert(had.push(r@) =~= done + replies);
                                }
                            },
                            None => {},
                        }
                    },
                    Executed::Blocked { on, rx } => {
                        proof {
                            assert(ran(all, n, a, mid, clock, replies));
                            assert(executed(all[n as int], mid, redis@, clock, on@));
                        }
                        return Handled::Suspended {
                            waiting: Waiting { on, rest: left, results: collected, in_exec: true },
                            rx,
                        };
                    },
                }
            },
        }
    }
}

/// Handles one frame of the client `addr` at `clock`.
///
/// A frame that is no array, or no command, is answered with an error.
/// `MULTI`, `EXEC` and `DISCARD` open, run and drop the client's
/// transaction. Any other command is queued while the client is in a
/// transaction, and run at once while it is not. A command that has to wait
/// suspends the handling: the caller waits on the handle returned and then
/// calls `resume_command`.
pub fn handle_command(value: RedisValueRef, addr: u64, redis: &mut Redis, clock: Clock) -> (out:
    Handled)
    requires
        old(redis).wf(),
    ensures
        final(redis).wf(),
        handled(value@, addr, old(redis)@, final(redis)@, clock, out@),
{
    let arr = match value {
        RedisValueRef::Array(a) => a,
        _ => {
            return Handled::Reply(
                Some(RedisValueRef::Error(bytes_from_text("ERR expected array"))),
            );
        },
    };
    proof {
        lemma_array_view(arr);
    }
    let parsed_command = match parse_command(arr.as_slice()) {
        Ok(command) => command,
        Err(e) => {
            return Handled::Reply(Some(error_reply(e)));
        },
    };
    let ghost a = redis@;
    match parsed_command {
        Command::MULTI => {
            let reply = redis.tr.start_transaction(addr);
            proof {
                if !a.queues.contains_key(addr) {
                    crate::redis::lemma_queue_views_insert(
                        old(redis).tr@,
                        addr,
                        Seq::<Command>::empty(),
                    );
                    assert(command_views(Seq::<Command>::empty()) =~= Seq::<CommandView>::empty());
                }
            }
            Handled::Reply(Some(reply))
        },
        Command::EXEC => match redis.tr.exec_transaction(addr) {
            Some(commands) => {
                proof {
                    crate::redis::lemma_queue_views_remove(old(redis).tr@, addr);
                    assert(command_views(commands@) == a.queues[addr]);
                }
                let results: Vec<RedisValueRef> = Vec::new();
                assert(views(results@) =~= Seq::<Resp>::empty());
                run_queue(commands, results, redis, clock)
            },
            None => {
                proof {
                    crate::redis::lemma_queue_views_remove(old(redis).tr@, addr);
                    assert(a.queues.remove(addr) =~= a.queues);
                    assert(redis@ =~= a);
                }
                Handled::Reply(
                    Some(RedisValueRef::Error(bytes_from_text("ERR EXEC without MULTI"))),
                )
            },
        },
        Command::DISCARD => {
            let reply = redis.tr.discard_transaction(addr);
            proof {
                crate::redis::lemma_queue_views_remove(old(redis).tr@, addr);
            }
            Handled::Reply(Some(reply))
        },
        other => {
            if redis.tr.in_transaction(addr) {
                let ghost view = other@;
                let reply = redis.tr.queue_command(addr, other);
                proof {
                    let q = old(redis).tr@[addr];
                    crate::redis::lemma_queue_views_insert(old(redis).tr@, addr, q.push(other));
                    assert(command_views(q.push(other)) =~= command_views(q).push(view));
                }
                Handled::Reply(Some(reply))
            } else {
                match execute_command(other, redis, clock) {
                    Executed::Reply(reply) => Handled::Reply(reply),
                    Executed::Blocked { on, rx } => Handled::Suspended {
                        waiting: Waiting {
                            on,
                            rest: VecDeque::new(),
                            results: Vec::new(),
                            in_exec: false,
                        },
                        rx,
                    },
                }
            }
        },
    }
}

/// Goes on with a handling that waited, once its wait has ended with
/// `outcome`.
///
/// A client that was signalled tries its pop or its read again; after a
/// timeout, or when the handle was lost, the answer is the null array. In a
/// transaction the answer joins the replies and the rest of the queue is
/// run, which may suspend the handling again.
pub fn resume_command(waiting: Waiting, outcome: WaitOutcome, redis: &mut Redis, clock: Clock) -> (out:
    Handled)
    requires
        old(redis).wf(),
    ensures
        final(redis).wf(),
        resumed(waiting@, outcome, old(redis)@, final(redis)@, clock, out@),
{
    let Waiting { on, rest, results, in_exec } = waiting;
    let ghost a = redis@;
    let reply = match on {
        Pending::List { key, timeout } => redis.lists.blpop_resume(&key, outcome),
        Pending::Streams { kv, timeout } => redis.stream.blocking_xread_resume(&kv, outcome),
    };
    let ghost mid = redis@;
    assert(woken(on@, outcome, a, mid, reply@));
    if in_exec {
        let mut results = results;
        let ghost before = views(results@);
        results.push(reply);
        assert(views(results@) =~= before.push(reply@));
        run_queue(rest, results, redis, clock)
    } else {
        Handled::Reply(Some(reply))
    }
}

} // verus!
