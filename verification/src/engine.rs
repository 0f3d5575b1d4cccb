//! What the commands do to the engine, stated over the engine's
//! mathematical value.

use crate::buffer::text;
use crate::clock::Clock;
use crate::commands::spec_parse_command;
use crate::commands::CommandError;
use crate::commands::CommandView;
use crate::key_value::bulk_items;
use crate::key_value::matching_keys;
use crate::key_value::spec_expiry;
use crate::key_value::spec_get;
use crate::key_value::spec_incr;
use crate::key_value::EntryView;
use crate::lists::bulk_strings;
use crate::lists::spec_len_reply;
use crate::lists::spec_lpop;
use crate::lists::spec_lpush;
use crate::lists::spec_lrange;
use crate::lists::spec_pop_one;
use crate::lists::spec_rpush;
use crate::lists::Lists;
use crate::redis::spec_info_text;
use crate::redis::EngineView;
use crate::resp::Resp;
use crate::streams::found_or_null;
use crate::streams::spec_format_id;
use crate::streams::spec_id_error_text;
use crate::streams::spec_xadd;
use crate::streams::spec_xrange;
use crate::streams::spec_xread;
use crate::waiters::is_rest_of;
use crate::waiters::queue_of;
use crate::waiters::WaitOutcome;
use tokio::sync::oneshot::Sender;
use vstd::prelude::*;
use vstd::utf8::encode_utf8;

verus! {

/// What one command comes to: a reply, or none; or a wait.
#[allow(inconsistent_fields)]
pub enum Outcome {
    Reply(Option<Resp>),
    /// The client waits for an element of the list under `key`; `timeout`
    /// is the number of seconds as the client wrote it.
    WaitList { key: Seq<u8>, timeout: Seq<u8> },
    /// The client waits for entries of the streams of `kv`, for `timeout`
    /// milliseconds.
    WaitStreams { kv: Seq<Seq<u8>>, timeout: u64 },
}

/// The queues of waiters by key.
pub type Waiters = Map<Seq<u8>, Seq<Sender<bool>>>;

/// A client was queued behind the waiters of `k`.
pub open spec fn queued(before: Waiters, after: Waiters, k: Seq<u8>) -> bool {
    &&& after.remove(k) == before.remove(k)
    &&& queue_of(after, k).len() == queue_of(before, k).len() + 1
    &&& queue_of(after, k).drop_last() == queue_of(before, k)
}

/// Waiters of `k` left the front of their queue, and no others.
pub open spec fn served(before: Waiters, after: Waiters, k: Seq<u8>) -> bool {
    &&& after.remove(k) == before.remove(k)
    &&& is_rest_of(queue_of(after, k), queue_of(before, k))
}

/// The lists after the first `n` of `values` were pushed under `k`, each at
/// the tail, or each at the head.
pub open spec fn pushed(m: Lists, k: Seq<u8>, values: Seq<Seq<u8>>, n: nat, at_tail: bool) -> Lists
    decreases n,
{
    if n == 0 {
        m
    } else {
        let before = pushed(m, k, values, (n - 1) as nat, at_tail);
        if at_tail {
            spec_rpush(before, k, values[n - 1])
        } else {
            spec_lpush(before, k, values[n - 1])
        }
    }
}

/// What `RPUSH` and `LPUSH` do: the values are pushed in their order and the
/// reply is the list's length, 0 where nothing was pushed. Waiters of the
/// key are served.
pub open spec fn did_push(
    a: EngineView,
    b: EngineView,
    key: Seq<u8>,
    values: Seq<Seq<u8>>,
    at_tail: bool,
    out: Outcome,
) -> bool {
    &&& b == (EngineView {
        lists: pushed(a.lists, key, values, values.len(), at_tail),
        list_waiters: b.list_waiters,
        ..a
    })
    &&& served(a.list_waiters, b.list_waiters, key)
    &&& out == Outcome::Reply(
        Some(
            Resp::Int(
                if values.len() == 0 {
                    0
                } else {
                    spec_len_reply(queue_of(b.lists, key).len())
                },
            ),
        ),
    )
}

/// The reply of `LPOP`: a single element by itself.
pub open spec fn lpop_reply(popped: Option<Seq<Seq<u8>>>) -> Resp {
    match popped {
        Some(elements) => if elements.len() == 1 {
            Resp::BulkString(elements[0])
        } else {
            Resp::Array(bulk_strings(elements))
        },
        None => Resp::NullBulkString,
    }
}

/// What `LPOP` does.
pub open spec fn did_lpop(a: EngineView, b: EngineView, key: Seq<u8>, count: usize, out: Outcome) -> bool {
    &&& b == (EngineView { lists: spec_lpop(a.lists, key, count).0, ..a })
    &&& out == Outcome::Reply(Some(lpop_reply(spec_lpop(a.lists, key, count).1)))
}

/// What `BLPOP` does at first: it pops, or the client is queued.
pub open spec fn did_blpop(
    a: EngineView,
    b: EngineView,
    key: Seq<u8>,
    timeout: Seq<u8>,
    out: Outcome,
) -> bool {
    match spec_pop_one(a.lists, key).1 {
        Some(reply) => {
            &&& b == (EngineView { lists: spec_pop_one(a.lists, key).0, ..a })
            &&& out == Outcome::Reply(Some(reply))
        },
        None => {
            &&& b == (EngineView { list_waiters: b.list_waiters, ..a })
            &&& queued(a.list_waiters, b.list_waiters, key)
            &&& out == Outcome::WaitList { key, timeout }
        },
    }
}

/// What `XADD` does.
pub open spec fn did_xadd(
    a: EngineView,
    b: EngineView,
    key: Seq<u8>,
    id: Seq<u8>,
    kv: Seq<Seq<u8>>,
    clock: Clock,
    out: Outcome,
) -> bool {
    match spec_xadd(queue_of(a.streams, key), id, kv, clock.unix_ms) {
        Ok((entries, given)) => {
            &&& b == (EngineView {
                streams: a.streams.insert(key, entries),
                stream_waiters: b.stream_waiters,
                ..a
            })
            &&& served(a.stream_waiters, b.stream_waiters, key)
            &&& out == Outcome::Reply(Some(Resp::BulkString(spec_format_id(given))))
        },
        Err(e) => {
            &&& b == a
            &&& out == Outcome::Reply(Some(Resp::Error(spec_id_error_text(e))))
        },
    }
}

/// What `XREAD` does, with a timeout or without.
pub open spec fn did_xread(
    a: EngineView,
    b: EngineView,
    timeout: Option<u64>,
    kv: Seq<Seq<u8>>,
    out: Outcome,
) -> bool {
    let found = spec_xread(a.streams, kv);
    match timeout {
        None => b == a && out == Outcome::Reply(Some(Resp::Array(found))),
        Some(ms) => if found.len() > 0 || kv.len() == 0 {
            b == a && out == Outcome::Reply(Some(found_or_null(found)))
        } else {
            &&& b == (EngineView { stream_waiters: b.stream_waiters, ..a })
            &&& queued(a.stream_waiters, b.stream_waiters, kv[0])
            &&& out == Outcome::WaitStreams { kv, timeout: ms }
        },
    }
}

/// The reply of `CONFIG GET`.
pub open spec fn config_reply(a: EngineView, dir: bool, dbfilename: bool) -> Resp {
    if dir {
        Resp::Array(
            seq![Resp::BulkString(text("dir")), Resp::BulkString(encode_utf8(a.dir))],
        )
    } else if dbfilename {
        Resp::Array(
            seq![
                Resp::BulkString(text("dbfilename")),
                Resp::BulkString(encode_utf8(a.dbfilename)),
            ],
        )
    } else {
        Resp::NullArray
    }
}

/// The reply of `TYPE`.
pub open spec fn type_reply(a: EngineView, key: Seq<u8>) -> Resp {
    if a.kv.contains_key(key) {
        Resp::String(text("string"))
    } else if a.streams.contains_key(key) {
        Resp::String(text("stream"))
    } else {
        Resp::String(text("none"))
    }
}

/// The reply of `INCR`.
pub open spec fn incr_reply(n: Option<i64>) -> Resp {
    match n {
        Some(n) => Resp::Int(n),
        None => Resp::Error(text("ERR value is not an integer or out of range")),
    }
}

/// The reply of `GET`.
pub open spec fn get_reply(value: Option<Seq<u8>>) -> Resp {
    match value {
        Some(v) => Resp::BulkString(v),
        None => Resp::NullBulkString,
    }
}

/// Whether the command `cmd`, run at `clock` outside any transaction, takes
/// the engine from `a` to `b` and comes to `out`.
#[verifier::opaque]
pub open spec fn executed(cmd: CommandView, a: EngineView, b: EngineView, clock: Clock, out: Outcome) -> bool {
    match cmd {
        CommandView::Ping => b == a && out == Outcome::Reply(Some(Resp::String(text("PONG")))),
        CommandView::Echo(m) => b == a && out == Outcome::Reply(Some(Resp::String(m))),
        CommandView::SET { key, value, expiry } => {
            &&& b == (EngineView {
                kv: a.kv.insert(key, EntryView { value, expiry: spec_expiry(expiry, clock) }),
                ..a
            })
            &&& out == Outcome::Reply(Some(Resp::String(text("OK"))))
        },
        CommandView::Get(k) => {
            &&& b == (EngineView { kv: spec_get(a.kv, k, clock.monotonic_ms).0, ..a })
            &&& out == Outcome::Reply(Some(get_reply(spec_get(a.kv, k, clock.monotonic_ms).1)))
        },
        CommandView::RPUSH { key, values } => did_push(a, b, key, values, true, out),
        CommandView::LPUSH { key, values } => did_push(a, b, key, values, false, out),
        CommandView::LLEN(k) => b == a && out == Outcome::Reply(
            Some(Resp::Int(spec_len_reply(queue_of(a.lists, k).len()))),
        ),
        CommandView::LRANGE { key, start, end } => b == a && out == Outcome::Reply(
            Some(Resp::Array(bulk_strings(spec_lrange(queue_of(a.lists, key), start, end)))),
        ),
        CommandView::LPOP { key, count } => did_lpop(a, b, key, count, out),
        CommandView::BLPOP { key, timeout } => did_blpop(a, b, key, timeout, out),
        CommandView::TYPE(k) => b == a && out == Outcome::Reply(Some(type_reply(a, k))),
        CommandView::XADD { key, id, kv } => did_xadd(a, b, key, id, kv, clock, out),
        CommandView::XRANGE { key, start, end } => b == a && out == Outcome::Reply(
            Some(Resp::Array(spec_xrange(queue_of(a.streams, key), start, end))),
        ),
        CommandView::XREAD { to_block, timeout, key_stream_start } => did_xread(
            a,
            b,
            timeout,
            key_stream_start,
            out,
        ),
        CommandView::INCR(k) => {
            &&& b == (EngineView { kv: spec_incr(a.kv, k, clock.monotonic_ms).0, ..a })
            &&& out == Outcome::Reply(Some(incr_reply(spec_incr(a.kv, k, clock.monotonic_ms).1)))
        },
        CommandView::MULTI => b == a && out == Outcome::Reply(None),
        CommandView::EXEC => b == a && out == Outcome::Reply(None),
        CommandView::DISCARD => b == a && out == Outcome::Reply(None),
        CommandView::CONFIG { dir, dbfilename } => b == a && out == Outcome::Reply(
            Some(config_reply(a, dir, dbfilename)),
        ),
        CommandView::KEYS(p) => {
            &&& b == a
            &&& out matches Outcome::Reply(Some(r))
            &&& bulk_items(r) matches Some(ks)
            &&& ks.no_duplicates()
            &&& ks.to_set() == matching_keys(a.kv, p, clock.monotonic_ms)
        },
        CommandView::INFO(_) => b == a && out == Outcome::Reply(
            Some(Resp::BulkString(spec_info_text(a.info))),
        ),
        CommandView::REPLCONF(_) => b == a && out == Outcome::Reply(
            Some(Resp::String(text("OK"))),
        ),
    }
}

/// The replies with one more, where there is one.
pub open spec fn with_reply(replies: Seq<Resp>, reply: Option<Resp>) -> Seq<Resp> {
    match reply {
        Some(r) => replies.push(r),
        None => replies,
    }
}

/// Whether the first `n` commands of `queue`, run one after the other at
/// `clock`, take the engine from `a` to `b` without a wait and leave
/// `replies`.
pub open spec fn ran(
    queue: Seq<CommandView>,
    n: nat,
    a: EngineView,
    b: EngineView,
    clock: Clock,
    replies: Seq<Resp>,
) -> bool
    decreases n,
{
    if n == 0 {
        b == a && replies == Seq::<Resp>::empty()
    } else {
        exists|mid: EngineView, before: Seq<Resp>, reply: Option<Resp>|
            {
                &&& ran(queue, (n - 1) as nat, a, mid, clock, before)
                &&& #[trigger] executed_then(queue[n - 1], mid, b, clock, before, reply)
                &&& replies == with_reply(before, reply)
            }
    }
}

/// A command that replied, or gave no reply, behind the replies `before`.
pub open spec fn executed_then(
    cmd: CommandView,
    a: EngineView,
    b: EngineView,
    clock: Clock,
    before: Seq<Resp>,
    reply: Option<Resp>,
) -> bool {
    executed(cmd, a, b, clock, Outcome::Reply(reply))
}

/// How far the handling of a frame has come: it is done, with a reply or
/// without; or it waits, with the rest of a transaction still to run.
pub enum Progress {
    Done(Option<Resp>),
    Waiting {
        /// What is waited for.
        on: Outcome,
        /// The commands of the transaction that were not run yet.
        rest: Seq<CommandView>,
        /// The replies of those that were.
        results: Seq<Resp>,
        /// Whether a transaction is being run at all.
        in_exec: bool,
    },
}

/// Whether the commands of `queue`, run at `clock` behind the replies
/// `done`, take the engine from `a` to `b` and come to `out`: to the array
/// of all replies, or to a wait at the first command that has to wait.
pub open spec fn ran_queue(
    queue: Seq<CommandView>,
    done: Seq<Resp>,
    a: EngineView,
    b: EngineView,
    clock: Clock,
    out: Progress,
) -> bool {
    match out {
        Progress::Done(reply) => exists|replies: Seq<Resp>|
            {
                &&& #[trigger] ran(queue, queue.len(), a, b, clock, replies)
                &&& reply == Some(Resp::Array(done + replies))
            },
        Progress::Waiting { on, rest, results, in_exec } => {
            &&& in_exec
            &&& !(on is Reply)
            &&& exists|n: nat, mid: EngineView, replies: Seq<Resp>|
                {
                    &&& n < queue.len()
                    &&& #[trigger] ran(queue, n, a, mid, clock, replies)
                    &&& executed(queue[n as int], mid, b, clock, on)
                    &&& rest == queue.skip(n as int + 1)
                    &&& results == done + replies
                }
        },
    }
}

/// The message that goes with a frame that is no command.
pub open spec fn spec_command_error_text(e: CommandError) -> Seq<u8> {
    match e {
        CommandError::NotBulkStrings => text("ERR expected array of bulk strings"),
        CommandError::UnknownCommand => text("ERR unknown command"),
        CommandError::WrongArity => text("ERR wrong number of arguments"),
        CommandError::BadArgument => text("ERR value is not an integer or out of range"),
    }
}

/// What a single command outside a transaction comes to, as progress.
pub open spec fn single(out: Progress) -> Outcome {
    match out {
        Progress::Done(reply) => Outcome::Reply(reply),
        Progress::Waiting { on, .. } => on,
    }
}

/// Whether the frame `value`, sent by the client `addr` and handled at
/// `clock`, takes the engine from `a` to `b` and comes to `out`.
///
/// A frame that is no array, or no command, is answered with an error.
/// `MULTI`, `EXEC` and `DISCARD` open, run and drop the client's
/// transaction. Any other command is queued while the client is in a
/// transaction, and run at once while it is not.
pub open spec fn handled(
    value: Resp,
    addr: u64,
    a: EngineView,
    b: EngineView,
    clock: Clock,
    out: Progress,
) -> bool {
    match value {
        Resp::Array(items) => match spec_parse_command(items) {
            Err(e) => b == a && out == Progress::Done(
                Some(Resp::Error(spec_command_error_text(e))),
            ),
            Ok(cmd) => match cmd {
                CommandView::MULTI => if a.queues.contains_key(addr) {
                    b == a && out == Progress::Done(
                        Some(Resp::Error(text("ERR MULTI calls can not be nested"))),
                    )
                } else {
                    &&& b == (EngineView {
                        queues: a.queues.insert(addr, Seq::<CommandView>::empty()),
                        ..a
                    })
                    &&& out == Progress::Done(Some(Resp::String(text("OK"))))
                },
                CommandView::EXEC => if a.queues.contains_key(addr) {
                    ran_queue(
                        a.queues[addr],
                        Seq::<Resp>::empty(),
                        EngineView { queues: a.queues.remove(addr), ..a },
                        b,
                        clock,
                        out,
                    )
                } else {
                    b == a && out == Progress::Done(
                        Some(Resp::Error(text("ERR EXEC without MULTI"))),
                    )
                },
                CommandView::DISCARD => {
                    &&& b == (EngineView { queues: a.queues.remove(addr), ..a })
                    &&& out == Progress::Done(
                        Some(
                            if a.queues.contains_key(addr) {
                                Resp::String(text("OK"))
                            } else {
                                Resp::Error(text("ERR DISCARD without MULTI"))
                            },
                        ),
                    )
                },
                _ => if a.queues.contains_key(addr) {
                    &&& b == (EngineView {
                        queues: a.queues.insert(addr, a.queues[addr].push(cmd)),
                        ..a
                    })
                    &&& out == Progress::Done(Some(Resp::String(text("QUEUED"))))
                } else {
                    &&& executed(cmd, a, b, clock, single(out))
                    &&& out matches Progress::Waiting { rest, results, in_exec, .. } ==> rest.len()
                        == 0 && results.len() == 0 && !in_exec
                },
            },
        },
        _ => b == a && out == Progress::Done(Some(Resp::Error(text("ERR expected array")))),
    }
}

/// Whether a wait for `on` that ended with `outcome` takes the engine from
/// `a` to `b` and is answered with `reply`. A client that was signalled
/// tries again; after a timeout or the loss of its handle the answer is the
/// null array, and a timeout may clear waiters that have gone from the
/// queue it stood in.
pub open spec fn woken(
    on: Outcome,
    outcome: WaitOutcome,
    a: EngineView,
    b: EngineView,
    reply: Resp,
) -> bool {
    match on {
        Outcome::WaitList { key, timeout } => if outcome == WaitOutcome::Signalled {
            &&& b == (EngineView { lists: spec_pop_one(a.lists, key).0, ..a })
            &&& reply == (match spec_pop_one(a.lists, key).1 {
                Some(r) => r,
                None => Resp::NullArray,
            })
        } else {
            &&& b == (EngineView { list_waiters: b.list_waiters, ..a })
            &&& b.list_waiters.remove(key) == a.list_waiters.remove(key)
            &&& queue_of(b.list_waiters, key).len() <= queue_of(a.list_waiters, key).len()
            &&& outcome == WaitOutcome::ChannelLost ==> b == a
            &&& reply == Resp::NullArray
        },
        Outcome::WaitStreams { kv, timeout } => if outcome == WaitOutcome::Signalled {
            b == a && reply == found_or_null(spec_xread(a.streams, kv))
        } else {
            &&& b == (EngineView { stream_waiters: b.stream_waiters, ..a })
            &&& outcome == WaitOutcome::ChannelLost || kv.len() == 0 ==> b == a
            &&& kv.len() > 0 ==> b.stream_waiters.remove(kv[0]) == a.stream_waiters.remove(kv[0])
                && queue_of(b.stream_waiters, kv[0]).len() <= queue_of(
                a.stream_waiters,
                kv[0],
            ).len()
            &&& reply == Resp::NullArray
        },
        Outcome::Reply(_) => false,
    }
}

/// Whether the handling that waited as `waiting` says, resumed at `clock`
/// after its wait ended with `outcome`, takes the engine from `a` to `b` and
/// comes to `out`: to the answer of the wait, or, in a transaction, to what
/// the rest of the queue comes to behind that answer.
pub open spec fn resumed(
    waiting: Progress,
    outcome: WaitOutcome,
    a: EngineView,
    b: EngineView,
    clock: Clock,
    out: Progress,
) -> bool {
    match waiting {
        Progress::Waiting { on, rest, results, in_exec } => if in_exec {
            exists|mid: EngineView, reply: Resp|
                {
                    &&& #[trigger] woken(on, outcome, a, mid, reply)
                    &&& ran_queue(rest, results.push(reply), mid, b, clock, out)
                }
        } else {
            out matches Progress::Done(Some(reply)) && woken(on, outcome, a, b, reply)
        },
        Progress::Done(_) => false,
    }
}

} // verus!
