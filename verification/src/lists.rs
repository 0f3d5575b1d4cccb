//! The list store: a double-ended queue of byte strings per key, and the
//! clients that wait for an element to arrive.

use crate::buffer::all_contents;
use crate::buffer::bytes_of;
use crate::buffer::contents;
use crate::bytemap::ByteMap;
use crate::resp::lemma_array_view;
use crate::resp::views;
use crate::resp::RedisValueRef;
use crate::resp::Resp;
use crate::waiters::is_rest_of;
use crate::waiters::queue_of;
use crate::waiters::with_queue;
use crate::waiters::WaitOutcome;
use crate::waiters::WaiterQueues;
use bytes::Bytes;
use std::collections::VecDeque;
use tokio::sync::oneshot::Receiver;
use tokio::sync::oneshot::Sender;
use vstd::prelude::*;

verus! {

/// The lists of a store, by key.
pub type Lists = Map<Seq<u8>, Seq<Seq<u8>>>;

/// The lists after `v` was pushed at the tail of the list under `k`.
pub open spec fn spec_rpush(m: Lists, k: Seq<u8>, v: Seq<u8>) -> Lists {
    m.insert(k, queue_of(m, k).push(v))
}

/// The lists after `v` was pushed at the head of the list under `k`.
pub open spec fn spec_lpush(m: Lists, k: Seq<u8>, v: Seq<u8>) -> Lists {
    m.insert(k, seq![v] + queue_of(m, k))
}

/// A length as a reply carries it.
pub open spec fn spec_len_reply(n: nat) -> i64 {
    if n > i64::MAX {
        i64::MAX
    } else {
        n as i64
    }
}

/// The index at which `LRANGE` starts in a list of `len` elements: a
/// negative `start` counts from the tail, and what falls before the head is
/// raised to 0.
pub open spec fn lrange_from(len: int, start: i64) -> int {
    if start < 0 {
        if len + start < 0 {
            0
        } else {
            len + start
        }
    } else {
        start as int
    }
}

/// The index at which `LRANGE` ends in a list of `len` elements: a negative
/// `end` counts from the tail, and what falls behind the tail is lowered to
/// the last index.
pub open spec fn lrange_to(len: int, end: i64) -> int {
    if end < 0 {
        len + end
    } else if end >= len {
        len - 1
    } else {
        end as int
    }
}

/// The part of `list` that `LRANGE start end` names. Both ends count; `-1`
/// is the last element. A start behind the end names nothing.
pub open spec fn spec_lrange(list: Seq<Seq<u8>>, start: i64, end: i64) -> Seq<Seq<u8>> {
    let from = lrange_from(list.len() as int, start);
    let to = lrange_to(list.len() as int, end);
    if from > to {
        Seq::empty()
    } else {
        list.subrange(from, to + 1)
    }
}

/// `LRANGE -1 -1` names the last element of a list that has one.
pub proof fn lemma_lrange_last(list: Seq<Seq<u8>>)
    requires
        list.len() >= 1,
    ensures
        spec_lrange(list, -1i64, -1i64) == seq![list.last()],
{
    assert(spec_lrange(list, -1i64, -1i64) =~= seq![list.last()]);
}

/// A range whose start, once both ends are brought into the list, lies
/// behind its end is empty.
pub proof fn lemma_lrange_backwards(list: Seq<Seq<u8>>, start: i64, end: i64)
    requires
        lrange_from(list.len() as int, start) > lrange_to(list.len() as int, end),
    ensures
        spec_lrange(list, start, end) == Seq::<Seq<u8>>::empty(),
{
}

/// No key has an empty list.
pub open spec fn no_empty_list(m: Lists) -> bool {
    forall|k: Seq<u8>| #[trigger] m.contains_key(k) ==> m[k].len() > 0
}

/// One push or pop.
pub enum ListOp {
    RPush(Seq<u8>, Seq<u8>),
    LPush(Seq<u8>, Seq<u8>),
    LPop(Seq<u8>, usize),
}

/// The lists after the first `n` of `ops` were applied, in their order.
pub open spec fn after_ops(m: Lists, ops: Seq<ListOp>, n: nat) -> Lists
    decreases n,
{
    if n == 0 {
        m
    } else {
        let before = after_ops(m, ops, (n - 1) as nat);
        match ops[n - 1] {
            ListOp::RPush(k, v) => spec_rpush(before, k, v),
            ListOp::LPush(k, v) => spec_lpush(before, k, v),
            ListOp::LPop(k, count) => spec_lpop(before, k, count).0,
        }
    }
}

/// After any run of pushes and pops a key is in the store exactly if its
/// list holds an element: no key is left with an empty list.
pub proof fn lemma_lists_stay_nonempty(m: Lists, ops: Seq<ListOp>, n: nat)
    requires
        no_empty_list(m),
        n <= ops.len(),
    ensures
        no_empty_list(after_ops(m, ops, n)),
    decreases n,
{
    if n > 0 {
        lemma_lists_stay_nonempty(m, ops, (n - 1) as nat);
        let before = after_ops(m, ops, (n - 1) as nat);
        let after = after_ops(m, ops, n);
        assert forall|k: Seq<u8>| #[trigger] after.contains_key(k) implies after[k].len() > 0 by {
            if before.contains_key(k) {
                assert(before[k].len() > 0);
            }
        }
    }
}

/// A pop that finds no list has to wait, and a single push under its key
/// then serves it: the pop that follows the push returns the key with the
/// value pushed, and leaves the store as it was.
pub proof fn lemma_push_serves_blocked_pop(m: Lists, k: Seq<u8>, v: Seq<u8>)
    requires
        !m.contains_key(k),
    ensures
        spec_pop_one(m, k).1 is None,
        spec_pop_one(spec_lpush(m, k, v), k) == (m, Some(popped_pair(k, v))),
        spec_pop_one(spec_rpush(m, k, v), k) == (m, Some(popped_pair(k, v))),
{
    let l = spec_lpush(m, k, v);
    assert(l[k] =~= seq![v]);
    assert(l[k].skip(1) =~= Seq::<Seq<u8>>::empty());
    assert(l.remove(k) =~= m);
    let r = spec_rpush(m, k, v);
    assert(r[k] =~= seq![v]);
    assert(r.remove(k) =~= m);
}

/// The lists and the elements popped after `LPOP k count`: up to `count`
/// elements leave the head; a list that is emptied leaves the store. A key
/// without list gives nothing.
pub open spec fn spec_lpop(m: Lists, k: Seq<u8>, count: usize) -> (Lists, Option<Seq<Seq<u8>>>) {
    if !m.contains_key(k) || m[k].len() == 0 {
        (m, None)
    } else {
        let n = if count < m[k].len() {
            count as int
        } else {
            m[k].len() as int
        };
        (with_queue(m, k, m[k].skip(n)), Some(m[k].take(n)))
    }
}

/// The reply of a blocking pop that found `v` under `k`.
pub open spec fn popped_pair(k: Seq<u8>, v: Seq<u8>) -> Resp {
    Resp::Array(seq![Resp::BulkString(k), Resp::BulkString(v)])
}

/// The lists and the reply after one element was popped for a blocking pop
/// of `k`, if there is one.
pub open spec fn spec_pop_one(m: Lists, k: Seq<u8>) -> (Lists, Option<Resp>) {
    match spec_lpop(m, k, 1) {
        (after, Some(popped)) => (after, Some(popped_pair(k, popped[0]))),
        (after, None) => (after, None),
    }
}

/// The byte strings as bulk strings.
pub open spec fn bulk_strings(s: Seq<Seq<u8>>) -> Seq<Resp> {
    Seq::new(s.len(), |i: int| Resp::BulkString(s[i]))
}

/// How a blocking pop starts.
pub enum BlpopStart {
    /// An element was there: the reply.
    Ready(RedisValueRef),
    /// Nothing was there. The client is queued, and waits on this handle.
    Wait(Receiver<bool>),
}

pub fn len_reply(n: usize) -> (r: i64)
    ensures
        r == spec_len_reply(n as nat),
{
    if n as u64 > 0x7fff_ffff_ffff_ffff {
        i64::MAX
    } else {
        n as i64
    }
}

pub struct List {
    blocked: WaiterQueues,
    lists: ByteMap<VecDeque<Bytes>>,
}

impl List {
    pub closed spec fn wf(&self) -> bool {
        &&& self.blocked.wf()
        &&& self.lists.wf()
        &&& forall|k: Seq<u8>| #[trigger] self.lists@.contains_key(k) ==> self.lists@[k]@.len() > 0
    }

    /// The lists, by key.
    pub closed spec fn view(&self) -> Lists {
        self.lists@.map_values(|d: VecDeque<Bytes>| all_contents(d@))
    }

    /// The clients that wait, by key and in the order in which they came.
    pub closed spec fn waiters(&self) -> Map<Seq<u8>, Seq<Sender<bool>>> {
        self.blocked@
    }

    /// A key is in the store exactly as long as its list holds an element.
    pub proof fn lemma_no_empty_list(&self)
        requires
            self.wf(),
        ensures
            no_empty_list(self@),
            forall|k: Seq<u8>| #[trigger] self@.contains_key(k) ==> self@[k].len() > 0,
            forall|k: Seq<u8>| queue_of(self@, k).len() > 0 <==> self@.contains_key(k),
    {
        assert forall|k: Seq<u8>| #[trigger] self@.contains_key(k) implies self@[k].len() > 0 by {
            assert(self.lists@.contains_key(k));
        }
    }

    pub fn new() -> (store: Self)
        ensures
            store.wf(),
            store@ == Lists::empty(),
            store.waiters() == Map::<Seq<u8>, Seq<Sender<bool>>>::empty(),
    {
        let store = List { blocked: WaiterQueues::new(), lists: ByteMap::new() };
        assert(store@ =~= Lists::empty());
        store
    }

    /// Takes the list under `key` out of the store.
    fn take(&mut self, key: &Bytes) -> (list: VecDeque<Bytes>)
        requires
            old(self).wf(),
        ensures
            final(self).wf(),
            final(self)@ == old(self)@.remove(contents(*key)),
            final(self).waiters() == old(self).waiters(),
            all_contents(list@) == queue_of(old(self)@, contents(*key)),
    {
        let taken = self.lists.remove(bytes_of(key));
        assert(self@ =~= old(self)@.remove(contents(*key)));
        match taken {
            Some(list) => list,
            None => {
                let list: VecDeque<Bytes> = VecDeque::new();
                assert(all_contents(list@) =~= Seq::<Seq<u8>>::empty());
                list
            },
        }
    }

    /// Puts `list` under `key`, unless it is empty.
    fn restore(&mut self, key: &Bytes, list: VecDeque<Bytes>)
        requires
            old(self).wf(),
            !old(self)@.contains_key(contents(*key)),
        ensures
            final(self).wf(),
            final(self)@ == with_queue(old(self)@, contents(*key), all_contents(list@)),
            final(self).waiters() == old(self).waiters(),
    {
        if list.len() > 0 {
            self.lists.insert(key.clone(), list);
            assert(self@ =~= old(self)@.insert(contents(*key), all_contents(list@)));
        } else {
            assert(self@ =~= old(self)@.remove(contents(*key)));
        }
    }

    /// What a push does to the waiters of its key: handles leave the front
    /// of the queue, at least one if there was any, the last of them
    /// signalled unless the queue ran out.
    pub open spec fn woke(before: &List, after: &List, k: Seq<u8>) -> bool {
        &&& after.waiters().remove(k) == before.waiters().remove(k)
        &&& is_rest_of(queue_of(after.waiters(), k), queue_of(before.waiters(), k))
        &&& queue_of(before.waiters(), k).len() > 0 ==> queue_of(after.waiters(), k).len()
            < queue_of(before.waiters(), k).len()
    }

    fn wake(&mut self, key: &Bytes)
        requires
            old(self).wf(),
        ensures
            final(self).wf(),
            final(self)@ == old(self)@,
            Self::woke(old(self), final(self), contents(*key)),
    {
        let woken = self.blocked.wake_one(key);
        proof {
            let k = contents(*key);
            let before = queue_of(old(self).waiters(), k);
            let rest = before.skip(woken.taken as int);
            self.blocked.lemma_no_empty_queue();
            assert(queue_of(self.waiters(), k) =~= rest);
            assert(self.waiters().remove(k) =~= old(self).waiters().remove(k));
        }
    }

    /// `RPUSH`: puts `value` at the tail of the list under `key`, which is
    /// made if there is none, and returns the list's new length. One client
    /// that waits for the key is woken.
    pub fn rpush(&mut self, key: &Bytes, value: Bytes) -> (len: i64)
        requires
            old(self).wf(),
        ensures
            final(self).wf(),
            final(self)@ == spec_rpush(old(self)@, contents(*key), contents(value)),
            len == spec_len_reply(final(self)@[contents(*key)].len()),
            Self::woke(old(self), final(self), contents(*key)),
    {
        let mut list = self.take(key);
        let ghost before = all_contents(list@);
        list.push_back(value);
        assert(all_contents(list@) =~= before.push(contents(value)));
        let len = len_reply(list.len());
        self.restore(key, list);
        assert(self@ =~= spec_rpush(old(self)@, contents(*key), contents(value)));
        self.wake(key);
        len
    }

    /// `LPUSH`: puts `value` at the head of the list under `key`, which is
    /// made if there is none, and returns the list's new length. One client
    /// that waits for the key is woken.
    pub fn lpush(&mut self, key: &Bytes, value: Bytes) -> (len: i64)
        requires
            old(self).wf(),
        ensures
            final(self).wf(),
            final(self)@ == spec_lpush(old(self)@, contents(*key), contents(value)),
            len == spec_len_reply(final(self)@[contents(*key)].len()),
            Self::woke(old(self), final(self), contents(*key)),
    {
        let mut list = self.take(key);
        let ghost before = all_contents(list@);
        list.push_front(value);
        assert(all_contents(list@) =~= seq![contents(value)] + before);
        let len = len_reply(list.len());
        self.restore(key, list);
        assert(self@ =~= spec_lpush(old(self)@, contents(*key), contents(value)));
        self.wake(key);
        len
    }

    /// `LLEN`: the length of the list under `key`, 0 where there is none.
    pub fn llen(&self, key: &Bytes) -> (len: i64)
        requires
            self.wf(),
        ensures
            len == spec_len_reply(queue_of(self@, contents(*key)).len()),
    {
        match self.lists.get(bytes_of(key)) {
            Some(list) => len_reply(list.len()),
            None => 0,
        }
    }

    /// `LRANGE`: the elements from `start` to `end`, as bulk strings.
    pub fn lrange(&self, key: &Bytes, start: i64, end: i64) -> (res: Vec<RedisValueRef>)
        requires
            self.wf(),
        ensures
            views(res@) == bulk_strings(spec_lrange(queue_of(self@, contents(*key)), start, end)),
    {
        let mut res: Vec<RedisValueRef> = Vec::new();
        match self.lists.get(bytes_of(key)) {
            Some(list) => {
                let ghost all = all_contents(list@);
                let len = list.len();
                if len == 0 {
                    assert(views(res@) =~= bulk_strings(spec_lrange(all, start, end)));
                    return res;
                }
                let from: usize = if start < 0 {
                    let back: u64 = if start == i64::MIN {
                        0x8000_0000_0000_0000
                    } else {
                        (-start) as u64
                    };
                    if back >= len as u64 {
                        0
                    } else {
                        len - back as usize
                    }
                } else if start as u64 >= len as u64 {
                    len
                } else {
                    start as usize
                };
                let past: usize = if end < 0 {
                    let back: u64 = if end == i64::MIN {
                        0x8000_0000_0000_0000
                    } else {
                        (-end) as u64
                    };
                    if back > len as u64 {
                        0
                    } else {
                        len - back as usize + 1
                    }
                } else if end as u64 >= len as u64 {
                    len
                } else {
                    end as usize + 1
                };
                let ghost want = spec_lrange(all, start, end);
                if from >= past {
                    assert(want =~= Seq::<Seq<u8>>::empty());
                    assert(views(res@) =~= bulk_strings(want));
                    return res;
                }
                assert(want =~= all.subrange(from as int, past as int));
                let mut i: usize = from;
                while i < past
                    invariant
                        from <= i <= past,
                        past <= len,
                        len == list@.len(),
                        all == all_contents(list@),
                        res@.len() == i - from,
                        forall|j: int|
                            0 <= j < res@.len() ==> (#[trigger] res@[j])@ == Resp::BulkString(
                                all[from + j],
                            ),
                    decreases past - i,
                {
                    res.push(RedisValueRef::BulkString(list[i].clone()));
                    i = i + 1;
                }
                assert(views(res@) =~= bulk_strings(want));
            },
            None => {
                assert(views(res@) =~= bulk_strings(
                    spec_lrange(Seq::<Seq<u8>>::empty(), start, end),
                ));
            },
        }
        res
    }

    /// `LPOP`: takes up to `count` elements off the head of the list under
    /// `key` and returns them as bulk strings. A list that is emptied leaves
    /// the store; a key without list gives `None`.
    pub fn lpop(&mut self, key: &Bytes, count: usize) -> (res: Option<Vec<RedisValueRef>>)
        requires
            old(self).wf(),
        ensures
            final(self).wf(),
            final(self)@ == spec_lpop(old(self)@, contents(*key), count).0,
            final(self).waiters() == old(self).waiters(),
            match spec_lpop(old(self)@, contents(*key), count).1 {
                Some(popped) => res matches Some(v) && views(v@) == bulk_strings(popped),
                None => res is None,
            },
    {
        proof {
            old(self).lemma_no_empty_list();
        }
        if !self.lists.contains_key(bytes_of(key)) {
            return None;
        }
        let mut list = self.take(key);
        let ghost all = all_contents(list@);
        assert(all.len() == list.len());
        let mut res: Vec<RedisValueRef> = Vec::new();
        let mut n: usize = 0;
        assert(all.skip(0) =~= all);
        while n < count && list.len() > 0
            invariant
                n <= count,
                n <= all.len(),
                all.len() <= usize::MAX,
                list@.len() == all.len() - n,
                all_contents(list@) == all.skip(n as int),
                res@.len() == n,
                forall|j: int| 0 <= j < n ==> (#[trigger] res@[j])@ == Resp::BulkString(all[j]),
            decreases list@.len(),
        {
            let ghost before = list@;
            match list.pop_front() {
                Some(element) => {
                    assert(contents(element) == all_contents(before)[0]);
                    assert forall|j: int| 0 <= j < list@.len() implies all_contents(list@)[j]
                        == all.skip(n + 1)[j] by {
                        assert(list@[j] == before[j + 1]);
                        assert(all_contents(before)[j + 1] == contents(before[j + 1]));
                    }
                    assert(all_contents(list@) =~= all.skip(n + 1));
                    res.push(RedisValueRef::BulkString(element));
                    n = n + 1;
                },
                None => {},
            }
        }
        assert(views(res@) =~= bulk_strings(all.take(n as int)));
        self.restore(key, list);
        proof {
            let k = contents(*key);
            assert(with_queue(old(self)@.remove(k), k, all.skip(n as int)) =~= with_queue(
                old(self)@,
                k,
                all.skip(n as int),
            ));
        }
        Some(res)
    }

    /// Pops one element for a blocking pop of `key`, and shapes the reply.
    fn pop_one(&mut self, key: &Bytes) -> (res: Option<RedisValueRef>)
        requires
            old(self).wf(),
        ensures
            final(self).wf(),
            final(self)@ == spec_pop_one(old(self)@, contents(*key)).0,
            final(self).waiters() == old(self).waiters(),
            match spec_pop_one(old(self)@, contents(*key)).1 {
                Some(reply) => res matches Some(v) && v@ == reply,
                None => res is None,
            },
    {
        match self.lpop(key, 1) {
            Some(mut popped) => {
                let ghost all = views(popped@);
                proof {
                    old(self).lemma_no_empty_list();
                    assert(all.len() == 1);
                    assert(popped@.len() == 1);
                    assert(all[0] == popped@[0]@);
                }
                match popped.pop() {
                    Some(value) => {
                        let mut pair: Vec<RedisValueRef> = Vec::new();
                        pair.push(RedisValueRef::BulkString(key.clone()));
                        pair.push(value);
                        proof {
                            lemma_array_view(pair);
                            assert(value@ == all[0]);
                            assert(views(pair@) =~= seq![
                                Resp::BulkString(contents(*key)),
                                Resp::BulkString(old(self)@[contents(*key)][0]),
                            ]);
                        }
                        Some(RedisValueRef::Array(pair))
                    },
                    None => None,
                }
            },
            None => None,
        }
    }

    /// `BLPOP`, first step: pops the head of the list under `key` if there
    /// is one. If not, the client is queued behind the waiters of the key,
    /// and is to wait on the handle returned, up to its timeout.
    pub fn blpop(&mut self, key: &Bytes) -> (start: BlpopStart)
        requires
            old(self).wf(),
        ensures
            final(self).wf(),
            final(self)@ == spec_pop_one(old(self)@, contents(*key)).0,
            match spec_pop_one(old(self)@, contents(*key)).1 {
                Some(reply) => {
                    &&& start matches BlpopStart::Ready(v)
                    &&& v@ == reply
                    &&& final(self).waiters() == old(self).waiters()
                },
                None => {
                    &&& start is Wait
                    &&& final(self).waiters().remove(contents(*key)) == old(self).waiters().remove(
                        contents(*key),
                    )
                    &&& queue_of(final(self).waiters(), contents(*key)).drop_last() == queue_of(
                        old(self).waiters(),
                        contents(*key),
                    )
                    &&& queue_of(final(self).waiters(), contents(*key)).len() == queue_of(
                        old(self).waiters(),
                        contents(*key),
                    ).len() + 1
                },
            },
    {
        match self.pop_one(key) {
            Some(reply) => BlpopStart::Ready(reply),
            None => BlpopStart::Wait(self.blocked.register(key)),
        }
    }

    /// `BLPOP`, second step, once the wait is over. A client that was
    /// signalled pops the head of the list; if another client took it first,
    /// or the wait ended without signal, the reply is the null array. After
    /// a timeout the handles of clients that have gone are dropped from the
    /// key's queue.
    pub fn blpop_resume(&mut self, key: &Bytes, outcome: WaitOutcome) -> (reply: RedisValueRef)
        requires
            old(self).wf(),
        ensures
            final(self).wf(),
            outcome == WaitOutcome::Signalled ==> {
                &&& final(self)@ == spec_pop_one(old(self)@, contents(*key)).0
                &&& final(self).waiters() == old(self).waiters()
                &&& reply@ == match spec_pop_one(old(self)@, contents(*key)).1 {
                    Some(r) => r,
                    None => Resp::NullArray,
                }
            },
            outcome != WaitOutcome::Signalled ==> {
                &&& final(self)@ == old(self)@
                &&& reply@ == Resp::NullArray
                &&& final(self).waiters().remove(contents(*key)) == old(self).waiters().remove(
                    contents(*key),
                )
                &&& queue_of(final(self).waiters(), contents(*key)).len() <= queue_of(
                    old(self).waiters(),
                    contents(*key),
                ).len()
            },
            outcome == WaitOutcome::ChannelLost ==> final(self).waiters() == old(self).waiters(),
    {
        match outcome {
            WaitOutcome::Signalled => match self.pop_one(key) {
                Some(reply) => reply,
                None => RedisValueRef::NullArray,
            },
            WaitOutcome::TimedOut => {
                self.blocked.forget_closed(key);
                RedisValueRef::NullArray
            },
            WaitOutcome::ChannelLost => RedisValueRef::NullArray,
        }
    }

    /// Whether `key` has a list.
    pub fn contains(&self, key: &Bytes) -> (b: bool)
        requires
            self.wf(),
        ensures
            b == self@.contains_key(contents(*key)),
    {
        self.lists.contains_key(bytes_of(key))
    }
}

} // verus!
