//! The engine as a whole: the stores, the transaction registry and what the
//! server reports of its part in replication.

use crate::buffer::bytes_from_vec;
use crate::decimal::push_i64;
use crate::decimal::push_u64;
use crate::decimal::spec_format_i64;
use crate::decimal::spec_format_u64;
use crate::key_value::KeyValue;
use crate::lists::List;
use crate::resp::extend;
use crate::resp::RedisValueRef;
use crate::resp::Resp;
use crate::streams::Stream;
use crate::transactions::Transaction;
use tokio::sync::mpsc::Sender;
use vstd::prelude::*;
use vstd::string::StringSliceAdditionalSpecFns;
use vstd::utf8::encode_utf8;

verus! {

#[verifier::external_type_specification]
#[verifier::external_body]
#[verifier::reject_recursive_types(T)]
pub struct ExMpscSender<T>(tokio::sync::mpsc::Sender<T>);

/// What the server reports under `INFO`.
pub struct Info {
    role: String,
    connected_slaves: u64,
    master_replid: String,
    master_repl_offset: u64,
    second_repl_offset: i64,
    repl_backlog_active: u64,
    repl_backlog_size: u64,
    repl_backlog_first_byte_offset: u64,
    repl_backlog_histlen: u64,
}

/// The mathematical value of an `Info`.
pub struct InfoView {
    pub role: Seq<char>,
    pub connected_slaves: u64,
    pub master_replid: Seq<char>,
    pub master_repl_offset: u64,
    pub second_repl_offset: i64,
    pub repl_backlog_active: u64,
    pub repl_backlog_size: u64,
    pub repl_backlog_first_byte_offset: u64,
    pub repl_backlog_histlen: u64,
}

/// One line of the report: a name, a value and a line feed.
pub open spec fn info_line(name: &str, value: Seq<u8>) -> Seq<u8> {
    name.spec_bytes() + value + seq![10u8]
}

/// The report: a heading, then one line for each value.
pub open spec fn spec_info_text(v: InfoView) -> Seq<u8> {
    info_line("# Replication", Seq::empty()) + info_line("role:", encode_utf8(v.role)) + info_line(
        "connected_slaves:",
        spec_format_u64(v.connected_slaves),
    ) + info_line("master_replid:", encode_utf8(v.master_replid)) + info_line(
        "master_repl_offset:",
        spec_format_u64(v.master_repl_offset),
    ) + info_line("second_repl_offset:", spec_format_i64(v.second_repl_offset)) + info_line(
        "repl_backlog_active:",
        spec_format_u64(v.repl_backlog_active),
    ) + info_line("repl_backlog_size:", spec_format_u64(v.repl_backlog_size)) + info_line(
        "repl_backlog_first_byte_offset:",
        spec_format_u64(v.repl_backlog_first_byte_offset),
    ) + info_line("repl_backlog_histlen:", spec_format_u64(v.repl_backlog_histlen))
}

/// Appends a line of the report.
fn push_line(out: &mut Vec<u8>, name: &str, value: &[u8])
    ensures
        final(out)@ == old(out)@ + info_line(name, value@),
{
    extend(out, name.as_bytes());
    extend(out, value);
    out.push(10);
    assert(out@ =~= old(out)@ + info_line(name, value@));
}

fn push_number_line(out: &mut Vec<u8>, name: &str, value: u64)
    ensures
        final(out)@ == old(out)@ + info_line(name, spec_format_u64(value)),
{
    let mut digits: Vec<u8> = Vec::new();
    push_u64(&mut digits, value);
    assert(digits@ =~= spec_format_u64(value));
    push_line(out, name, digits.as_slice());
}

/// What a server reports that has just started: it is a primary, without
/// replicas, at offset 0.
pub open spec fn fresh_info() -> InfoView {
    InfoView {
        role: "master"@,
        connected_slaves: 0,
        master_replid: "8371b4fb1155b71f4a04d3e1bc3e18c4a990aeeb"@,
        master_repl_offset: 0,
        second_repl_offset: 0,
        repl_backlog_active: 0,
        repl_backlog_size: 0,
        repl_backlog_first_byte_offset: 0,
        repl_backlog_histlen: 0,
    }
}

impl Info {
    pub closed spec fn view(&self) -> InfoView {
        InfoView {
            role: self.role@,
            connected_slaves: self.connected_slaves,
            master_replid: self.master_replid@,
            master_repl_offset: self.master_repl_offset,
            second_repl_offset: self.second_repl_offset,
            repl_backlog_active: self.repl_backlog_active,
            repl_backlog_size: self.repl_backlog_size,
            repl_backlog_first_byte_offset: self.repl_backlog_first_byte_offset,
            repl_backlog_histlen: self.repl_backlog_histlen,
        }
    }

    /// The report of a primary without replicas, at offset 0.
    pub fn new() -> (info: Self)
        ensures
            info@ == fresh_info(),
    {
        Info {
            role: "master".to_string(),
            connected_slaves: 0,
            master_replid: "8371b4fb1155b71f4a04d3e1bc3e18c4a990aeeb".to_string(),
            master_repl_offset: 0,
            second_repl_offset: 0,
            repl_backlog_active: 0,
            repl_backlog_size: 0,
            repl_backlog_first_byte_offset: 0,
            repl_backlog_histlen: 0,
        }
    }

    pub fn master_replid(&self) -> (id: String)
        ensures
            id@ == self@.master_replid,
    {
        self.master_replid.clone()
    }

    pub fn master_repl_offset(&self) -> (offset: u64)
        ensures
            offset == self@.master_repl_offset,
    {
        self.master_repl_offset
    }

    pub fn set_role(&mut self, role: &str)
        ensures
            final(self)@ == (InfoView { role: role@, ..old(self)@ }),
    {
        self.role = role.to_string();
    }

    /// Counts one replica more; the count stops at the largest number.
    pub fn add_slave(&mut self)
        ensures
            final(self)@ == (InfoView {
                connected_slaves: if old(self)@.connected_slaves < u64::MAX {
                    (old(self)@.connected_slaves + 1) as u64
                } else {
                    u64::MAX
                },
                ..old(self)@
            }),
    {
        if self.connected_slaves < u64::MAX {
            self.connected_slaves = self.connected_slaves + 1;
        }
    }

    /// Counts one replica less; the count stops at zero.
    pub fn remove_slave(&mut self)
        ensures
            final(self)@ == (InfoView {
                connected_slaves: if old(self)@.connected_slaves > 0 {
                    (old(self)@.connected_slaves - 1) as u64
                } else {
                    0
                },
                ..old(self)@
            }),
    {
        if self.connected_slaves > 0 {
            self.connected_slaves = self.connected_slaves - 1;
        }
    }

    pub fn set_master_replid(&mut self, id: &str)
        ensures
            final(self)@ == (InfoView { master_replid: id@, ..old(self)@ }),
    {
        self.master_replid = id.to_string();
    }

    pub fn set_master_repl_offset(&mut self, offset: u64)
        ensures
            final(self)@ == (InfoView { master_repl_offset: offset, ..old(self)@ }),
    {
        self.master_repl_offset = offset;
    }

    /// `INFO`: the report, as a bulk string.
    pub fn serialize(&self) -> (r: RedisValueRef)
        ensures
            r@ == Resp::BulkString(spec_info_text(self@)),
    {
        let mut s: Vec<u8> = Vec::new();
        let none: Vec<u8> = Vec::new();
        push_line(&mut s, "# Replication", none.as_slice());
        push_line(&mut s, "role:", self.role.as_str().as_bytes());
        push_number_line(&mut s, "connected_slaves:", self.connected_slaves);
        push_line(&mut s, "master_replid:", self.master_replid.as_str().as_bytes());
        push_number_line(&mut s, "master_repl_offset:", self.master_repl_offset);
        let mut digits: Vec<u8> = Vec::new();
        push_i64(&mut digits, self.second_repl_offset);
        assert(digits@ =~= spec_format_i64(self.second_repl_offset));
        push_line(&mut s, "second_repl_offset:", digits.as_slice());
        push_number_line(&mut s, "repl_backlog_active:", self.repl_backlog_active);
        push_number_line(&mut s, "repl_backlog_size:", self.repl_backlog_size);
        push_number_line(
            &mut s,
            "repl_backlog_first_byte_offset:",
            self.repl_backlog_first_byte_offset,
        );
        push_number_line(&mut s, "repl_backlog_histlen:", self.repl_backlog_histlen);
        assert(s@ =~= spec_info_text(self@));
        RedisValueRef::BulkString(bytes_from_vec(s))
    }
}

/// The mathematical value of the engine: what each of its parts holds.
#[verifier::ext_equal]
pub struct EngineView {
    pub kv: Map<Seq<u8>, crate::key_value::EntryView>,
    pub dir: Seq<char>,
    pub dbfilename: Seq<char>,
    pub lists: crate::lists::Lists,
    pub list_waiters: Map<Seq<u8>, Seq<tokio::sync::oneshot::Sender<bool>>>,
    pub streams: crate::streams::Streams,
    pub stream_waiters: Map<Seq<u8>, Seq<tokio::sync::oneshot::Sender<bool>>>,
    pub queues: Map<u64, Seq<crate::commands::CommandView>>,
    pub info: InfoView,
    pub slaves: Seq<Sender<Vec<u8>>>,
}

/// The commands of each queue, as mathematical values.
pub open spec fn queue_views(m: crate::transactions::Queues) -> Map<
    u64,
    Seq<crate::commands::CommandView>,
> {
    Map::new(|c: u64| m.contains_key(c), |c: u64| crate::commands::command_views(m[c]))
}

/// The views of the queues follow a queue that is put in.
pub proof fn lemma_queue_views_insert(
    m: crate::transactions::Queues,
    c: u64,
    q: Seq<crate::commands::Command>,
)
    ensures
        queue_views(m.insert(c, q)) == queue_views(m).insert(c, crate::commands::command_views(q)),
{
    assert(queue_views(m.insert(c, q)) =~= queue_views(m).insert(
        c,
        crate::commands::command_views(q),
    ));
}

/// The views of the queues follow a queue that is taken out.
pub proof fn lemma_queue_views_remove(m: crate::transactions::Queues, c: u64)
    ensures
        queue_views(m.remove(c)) == queue_views(m).remove(c),
{
    assert(queue_views(m.remove(c)) =~= queue_views(m).remove(c));
}

/// The engine that has just started: no data, no waiters, no transactions,
/// no replicas, no snapshot path, and the report of a fresh primary.
pub open spec fn fresh_engine() -> EngineView {
    EngineView {
        kv: Map::empty(),
        dir: Seq::empty(),
        dbfilename: Seq::empty(),
        lists: Map::empty(),
        list_waiters: Map::empty(),
        streams: Map::empty(),
        stream_waiters: Map::empty(),
        queues: Map::empty(),
        info: fresh_info(),
        slaves: Seq::empty(),
    }
}

/// The engine.
pub struct Redis {
    pub kv: KeyValue,
    pub lists: List,
    pub stream: Stream,
    pub tr: Transaction,
    pub info: Info,
    /// The channels to the replicas, to which writes are passed on.
    pub connected_slaves: Vec<Sender<Vec<u8>>>,
}

impl Redis {
    /// Every store is in order.
    pub open spec fn wf(&self) -> bool {
        &&& self.kv.wf()
        &&& self.lists.wf()
        &&& self.stream.wf()
    }

    pub open spec fn view(&self) -> EngineView {
        EngineView {
            kv: self.kv@,
            dir: self.kv.dir(),
            dbfilename: self.kv.dbfilename(),
            lists: self.lists@,
            list_waiters: self.lists.waiters(),
            streams: self.stream@,
            stream_waiters: self.stream.waiters(),
            queues: queue_views(self.tr@),
            info: self.info@,
            slaves: self.connected_slaves@,
        }
    }

    /// An engine without data, clients or replicas.
    pub fn new() -> (redis: Self)
        ensures
            redis.wf(),
            redis@ == fresh_engine(),
            redis.tr@ == crate::transactions::Queues::empty(),
    {
        let redis = Redis {
            kv: KeyValue::new(),
            lists: List::new(),
            stream: Stream::new(),
            tr: Transaction::new(),
            info: Info::new(),
            connected_slaves: Vec::new(),
        };
        proof {
            assert(queue_views(redis.tr@) =~= Map::<u64, Seq<crate::commands::CommandView>>::empty());
            assert(redis@ =~= fresh_engine());
        }
        redis
    }

    /// Takes in the channel to a new replica, and counts the replica.
    pub fn add_slave(&mut self, tx: Sender<Vec<u8>>)
        ensures
            final(self).connected_slaves@ == old(self).connected_slaves@.push(tx),
            final(self).info@ == (InfoView {
                connected_slaves: if old(self).info@.connected_slaves < u64::MAX {
                    (old(self).info@.connected_slaves + 1) as u64
                } else {
                    u64::MAX
                },
                ..old(self).info@
            }),
            final(self).kv == old(self).kv,
            final(self).lists == old(self).lists,
            final(self).stream == old(self).stream,
            final(self).tr == old(self).tr,
    {
        self.connected_slaves.push(tx);
        self.info.add_slave();
    }

    /// Drops the channel at `idx`, if there is one, and counts one replica
    /// less.
    pub fn remove_dead_slave(&mut self, idx: usize)
        ensures
            idx < old(self).connected_slaves@.len() ==> {
                &&& final(self).connected_slaves@ == old(self).connected_slaves@.remove(idx as int)
                &&& final(self).info@ == (InfoView {
                    connected_slaves: if old(self).info@.connected_slaves > 0 {
                        (old(self).info@.connected_slaves - 1) as u64
                    } else {
                        0
                    },
                    ..old(self).info@
                })
            },
            idx >= old(self).connected_slaves@.len() ==> {
                &&& final(self).connected_slaves@ == old(self).connected_slaves@
                &&& final(self).info@ == old(self).info@
            },
            final(self).kv == old(self).kv,
            final(self).lists == old(self).lists,
            final(self).stream == old(self).stream,
            final(self).tr == old(self).tr,
    {
        if idx < self.connected_slaves.len() {
            self.connected_slaves.remove(idx);
            self.info.remove_slave();
        }
    }
}

} // verus!
