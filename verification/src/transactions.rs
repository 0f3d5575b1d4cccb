//! The transaction registry: per client, the commands queued between
//! `MULTI` and `EXEC`.

use crate::buffer::bytes_from_text;
use crate::buffer::text;
use crate::commands::Command;
use crate::resp::RedisValueRef;
use crate::resp::Resp;
use std::collections::HashMap;
use std::collections::VecDeque;
use vstd::prelude::*;

verus! {

/// The state of one client: its queue while it is in a transaction.
pub struct TransactionState {
    pub transaction_queue: Option<VecDeque<Command>>,
}

impl TransactionState {
    pub fn new() -> (state: Self)
        ensures
            state.transaction_queue is None,
    {
        TransactionState { transaction_queue: None }
    }
}

/// The queues of the clients that are in a transaction, by client.
pub type Queues = Map<u64, Seq<Command>>;

pub struct Transaction {
    tr: HashMap<u64, TransactionState>,
}

impl Transaction {
    /// The queue of each client that is in a transaction. A client is in a
    /// transaction exactly while it has a queue here.
    pub closed spec fn view(&self) -> Queues {
        Map::new(
            |c: u64| self.tr@.contains_key(c) && self.tr@[c].transaction_queue is Some,
            |c: u64| self.tr@[c].transaction_queue->0@,
        )
    }

    pub fn new() -> (registry: Self)
        ensures
            registry@ == Queues::empty(),
    {
        let registry = Transaction { tr: HashMap::new() };
        assert(registry@ =~= Queues::empty());
        registry
    }

    /// `MULTI`: opens a transaction for the client, with an empty queue. A
    /// client that is in one already is told so, and keeps its queue.
    pub fn start_transaction(&mut self, addr: u64) -> (reply: RedisValueRef)
        ensures
            old(self)@.contains_key(addr) ==> final(self)@ == old(self)@ && reply@ == Resp::Error(
                text("ERR MULTI calls can not be nested"),
            ),
            !old(self)@.contains_key(addr) ==> final(self)@ == old(self)@.insert(
                addr,
                Seq::<Command>::empty(),
            ) && reply@ == Resp::String(text("OK")),
    {
        if self.in_transaction(addr) {
            return RedisValueRef::Error(bytes_from_text("ERR MULTI calls can not be nested"));
        }
        self.tr.insert(addr, TransactionState { transaction_queue: Some(VecDeque::new()) });
        assert(self@ =~= old(self)@.insert(addr, Seq::<Command>::empty()));
        RedisValueRef::String(bytes_from_text("OK"))
    }

    /// Whether the client is in a transaction.
    pub fn in_transaction(&self, addr: u64) -> (b: bool)
        ensures
            b == self@.contains_key(addr),
    {
        match self.tr.get(&addr) {
            Some(state) => state.transaction_queue.is_some(),
            None => false,
        }
    }

    /// Appends a command to the client's queue. A client that is in no
    /// transaction is told so.
    pub fn queue_command(&mut self, addr: u64, command: Command) -> (reply: RedisValueRef)
        ensures
            old(self)@.contains_key(addr) ==> final(self)@ == old(self)@.insert(
                addr,
                old(self)@[addr].push(command),
            ) && reply@ == Resp::String(text("QUEUED")),
            !old(self)@.contains_key(addr) ==> final(self)@ == old(self)@ && reply@ == Resp::Error(
                text("ERR EXEC without MULTI"),
            ),
    {
        let taken = self.exec_transaction(addr);
        let ghost mid = self@;
        let ghost mid_tr = self.tr@;
        match taken {
            Some(mut queue) => {
                queue.push_back(command);
                self.tr.insert(addr, TransactionState { transaction_queue: Some(queue) });
                proof {
                    let goal = old(self)@.insert(addr, old(self)@[addr].push(command));
                    assert forall|c: u64| self@.contains_key(c) <==> goal.contains_key(c) by {
                        if c != addr {
                            assert(self.tr@.contains_key(c) == mid_tr.contains_key(c));
                            assert(mid.contains_key(c) == (mid_tr.contains_key(c)
                                && mid_tr[c].transaction_queue is Some));
                        }
                    }
                    assert forall|c: u64| self@.contains_key(c) implies self@[c] == goal[c] by {
                        if c != addr {
                            assert(mid.contains_key(c));
                            assert(mid[c] == mid_tr[c].transaction_queue->0@);
                        }
                    }
                    assert(self@ =~= goal);
                }
                RedisValueRef::String(bytes_from_text("QUEUED"))
            },
            None => RedisValueRef::Error(bytes_from_text("ERR EXEC without MULTI")),
        }
    }

    /// `DISCARD`: drops the client's queue and ends its transaction. A client
    /// that is in no transaction is told so.
    pub fn discard_transaction(&mut self, addr: u64) -> (reply: RedisValueRef)
        ensures
            final(self)@ == old(self)@.remove(addr),
            old(self)@.contains_key(addr) ==> reply@ == Resp::String(text("OK")),
            !old(self)@.contains_key(addr) ==> reply@ == Resp::Error(
                text("ERR DISCARD without MULTI"),
            ),
    {
        match self.exec_transaction(addr) {
            Some(_) => RedisValueRef::String(bytes_from_text("OK")),
            None => RedisValueRef::Error(bytes_from_text("ERR DISCARD without MULTI")),
        }
    }

    /// `EXEC`: takes the client's queue and ends its transaction. The
    /// commands are returned in the order in which they were queued.
    pub fn exec_transaction(&mut self, addr: u64) -> (queue: Option<VecDeque<Command>>)
        ensures
            final(self)@ == old(self)@.remove(addr),
            match queue {
                Some(q) => old(self)@.contains_key(addr) && q@ == old(self)@[addr],
                None => !old(self)@.contains_key(addr),
            },
    {
        let taken = self.tr.remove(&addr);
        assert(self@ =~= old(self)@.remove(addr));
        match taken {
            Some(state) => state.transaction_queue,
            None => None,
        }
    }
}

} // verus!
