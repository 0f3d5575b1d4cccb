//! Waiters: the single-shot notification handles of clients that block on a
//! key, queued per key in the order in which they came.
//!
//! The handles are `tokio`'s oneshot channels. Whether a signal reaches its
//! receiver is decided outside the engine, so the contracts here say what
//! holds of the queues whatever the channels answer.

use crate::buffer::bytes_of;
use crate::buffer::contents;
use crate::bytemap::ByteMap;
use bytes::Bytes;
use std::collections::VecDeque;
use tokio::sync::oneshot::Receiver;
use tokio::sync::oneshot::Sender;
use vstd::prelude::*;

verus! {

#[verifier::external_type_specification]
#[verifier::external_body]
#[verifier::reject_recursive_types(T)]
pub struct ExSender<T>(tokio::sync::oneshot::Sender<T>);

#[verifier::external_type_specification]
#[verifier::external_body]
#[verifier::reject_recursive_types(T)]
pub struct ExReceiver<T>(tokio::sync::oneshot::Receiver<T>);

#[verifier::external_type_specification]
#[verifier::external_body]
pub struct ExRecvError(tokio::sync::oneshot::error::RecvError);

/// `tokio::sync::oneshot::channel`: a fresh pair of handles. Nothing is
/// claimed of them.
#[verifier::external_body]
pub(crate) fn channel() -> (pair: (Sender<bool>, Receiver<bool>)) {
    tokio::sync::oneshot::channel()
}

/// `oneshot::Sender::send`: hands the signal over and says whether a
/// receiver was still there to take it. Nothing is claimed of the answer.
#[verifier::external_body]
pub(crate) fn signal(tx: Sender<bool>) -> (delivered: bool) {
    tx.send(true).is_ok()
}

/// `oneshot::Sender::is_closed`: whether the receiving side has gone away.
/// Nothing is claimed of the answer.
#[verifier::external_body]
pub(crate) fn abandoned(tx: &Sender<bool>) -> (closed: bool) {
    tx.is_closed()
}

/// The queue under `k`, empty where there is none.
pub open spec fn queue_of<T>(m: Map<Seq<u8>, Seq<T>>, k: Seq<u8>) -> Seq<T> {
    if m.contains_key(k) {
        m[k]
    } else {
        Seq::empty()
    }
}

/// The map with `q` as the queue under `k`; an empty queue is not kept.
pub open spec fn with_queue<T>(m: Map<Seq<u8>, Seq<T>>, k: Seq<u8>, q: Seq<T>) -> Map<
    Seq<u8>,
    Seq<T>,
> {
    if q.len() == 0 {
        m.remove(k)
    } else {
        m.insert(k, q)
    }
}

/// How a wait came to its end.
#[derive(Debug, Clone, Copy, PartialEq, Eq, Structural)]
pub enum WaitOutcome {
    /// The handle was signalled.
    Signalled,
    /// The time allowed ran out first.
    TimedOut,
    /// The sending side was dropped without a signal.
    ChannelLost,
}

/// Whether `after` is what is left of `before` once some handles have gone
/// from its front.
pub open spec fn is_rest_of<T>(after: Seq<T>, before: Seq<T>) -> bool {
    exists|n: int| 0 <= n <= before.len() && after == #[trigger] before.skip(n)
}

/// Those of the first `n` handles of `q` that `closed` does not mark, in
/// their order. A handle without a mark counts as not marked.
pub open spec fn still_open_upto<T>(q: Seq<T>, closed: Seq<bool>, n: nat) -> Seq<T>
    decreases n,
{
    if n == 0 {
        Seq::empty()
    } else {
        let before = still_open_upto(q, closed, (n - 1) as nat);
        if n - 1 < closed.len() && closed[n - 1] {
            before
        } else {
            before.push(q[n - 1])
        }
    }
}

/// The handles of `q` that `closed` does not mark, in their order.
pub open spec fn still_open<T>(q: Seq<T>, closed: Seq<bool>) -> Seq<T> {
    still_open_upto(q, closed, q.len())
}

/// Whether `after` is what is left of `before` once the handles that were
/// found closed have gone: the others, in their order.
pub open spec fn is_cleaned<T>(after: Seq<T>, before: Seq<T>) -> bool {
    exists|closed: Seq<bool>| closed.len() == before.len() && after == #[trigger] still_open(
        before,
        closed,
    )
}

/// What is left is no longer than what there was.
pub proof fn lemma_still_open_len<T>(q: Seq<T>, closed: Seq<bool>, n: nat)
    requires
        n <= q.len(),
    ensures
        still_open_upto(q, closed, n).len() <= n,
    decreases n,
{
    if n > 0 {
        lemma_still_open_len(q, closed, (n - 1) as nat);
    }
}

/// The queue without the handles that `closed` marks: `closed[i]` says
/// whether the `i`-th handle was found closed. The others keep their order.
pub fn without_closed(queue: VecDeque<Sender<bool>>, closed: &Vec<bool>) -> (kept: VecDeque<
    Sender<bool>,
>)
    ensures
        kept@ == still_open(queue@, closed@),
{
    let mut left = queue;
    let mut kept: VecDeque<Sender<bool>> = VecDeque::new();
    let mut i: usize = 0;
    assert(queue@.skip(0) =~= queue@);
    assert(queue@.len() == left.len());
    while left.len() > 0
        invariant
            i <= queue@.len() <= usize::MAX,
            left@ == queue@.skip(i as int),
            kept@ == still_open_upto(queue@, closed@, i as nat),
        decreases left@.len(),
    {
        let ghost before = left@;
        match left.pop_front() {
            Some(tx) => {
                assert(tx == queue@[i as int]);
                assert(left@ =~= queue@.skip(i + 1));
                let marked = i < closed.len() && closed[i];
                if !marked {
                    kept.push_back(tx);
                }
                i = i + 1;
            },
            None => {},
        }
    }
    kept
}

/// What `wake_one` did: how many handles it took off the queue, and whether
/// the last of them took the signal.
pub struct Woken {
    pub taken: usize,
    pub signalled: bool,
}

/// The waiters of a store, queued by key.
pub struct WaiterQueues {
    queues: ByteMap<VecDeque<Sender<bool>>>,
}

impl WaiterQueues {
    pub closed spec fn wf(&self) -> bool {
        &&& self.queues.wf()
        &&& forall|k: Seq<u8>| #[trigger]
            self.queues@.contains_key(k) ==> self.queues@[k]@.len() > 0
    }

    /// The queues, by key. No queue is empty.
    pub closed spec fn view(&self) -> Map<Seq<u8>, Seq<Sender<bool>>> {
        self.queues@.map_values(|q: VecDeque<Sender<bool>>| q@)
    }

    pub proof fn lemma_no_empty_queue(&self)
        requires
            self.wf(),
        ensures
            forall|k: Seq<u8>| #[trigger] self@.contains_key(k) ==> self@[k].len() > 0,
    {
        assert forall|k: Seq<u8>| #[trigger] self@.contains_key(k) implies self@[k].len() > 0 by {
            assert(self.queues@.contains_key(k));
        }
    }

    pub fn new() -> (w: Self)
        ensures
            w.wf(),
            w@ == Map::<Seq<u8>, Seq<Sender<bool>>>::empty(),
    {
        let w = WaiterQueues { queues: ByteMap::new() };
        assert(w@ =~= Map::<Seq<u8>, Seq<Sender<bool>>>::empty());
        w
    }

    /// Puts `queue` back under `key`, unless it is empty.
    fn restore(&mut self, key: &Bytes, queue: VecDeque<Sender<bool>>)
        requires
            old(self).wf(),
            !old(self)@.contains_key(contents(*key)),
        ensures
            final(self).wf(),
            final(self)@ == with_queue(old(self)@, contents(*key), queue@),
    {
        if queue.len() > 0 {
            self.queues.insert(key.clone(), queue);
            assert(self@ =~= old(self)@.insert(contents(*key), queue@));
        } else {
            assert(self@ =~= old(self)@.remove(contents(*key)));
        }
    }

    /// Takes the queue under `key` out of the map.
    fn take(&mut self, key: &Bytes) -> (queue: VecDeque<Sender<bool>>)
        requires
            old(self).wf(),
        ensures
            final(self).wf(),
            final(self)@ == old(self)@.remove(contents(*key)),
            queue@ == queue_of(old(self)@, contents(*key)),
    {
        let taken = self.queues.remove(bytes_of(key));
        assert(self@ =~= old(self)@.remove(contents(*key)));
        match taken {
            Some(queue) => queue,
            None => VecDeque::new(),
        }
    }

    /// Queues a fresh handle behind the waiters of `key` and returns the
    /// receiving side, on which the client waits.
    pub fn register(&mut self, key: &Bytes) -> (rx: Receiver<bool>)
        requires
            old(self).wf(),
        ensures
            final(self).wf(),
            final(self)@.contains_key(contents(*key)),
            final(self)@[contents(*key)].len() == queue_of(old(self)@, contents(*key)).len() + 1,
            final(self)@[contents(*key)].drop_last() == queue_of(old(self)@, contents(*key)),
            final(self)@.remove(contents(*key)) == old(self)@.remove(contents(*key)),
    {
        let (tx, rx) = channel();
        let mut queue = self.take(key);
        let ghost before = queue@;
        queue.push_back(tx);
        assert(queue@.drop_last() =~= before);
        self.restore(key, queue);
        assert(self@.remove(contents(*key)) =~= old(self)@.remove(contents(*key)));
        rx
    }

    /// Signals the first waiter of `key` that is still there to be
    /// signalled. Handles whose receiver has gone are taken off the queue
    /// and dropped on the way.
    pub fn wake_one(&mut self, key: &Bytes) -> (woken: Woken)
        requires
            old(self).wf(),
        ensures
            final(self).wf(),
            woken.taken <= queue_of(old(self)@, contents(*key)).len(),
            final(self)@ == with_queue(
                old(self)@,
                contents(*key),
                queue_of(old(self)@, contents(*key)).skip(woken.taken as int),
            ),
            woken.signalled ==> woken.taken >= 1,
            !woken.signalled ==> woken.taken == queue_of(old(self)@, contents(*key)).len(),
    {
        let mut queue = self.take(key);
        let ghost whole = queue@;
        assert(whole.len() == queue.len());
        let mut taken: usize = 0;
        let mut signalled = false;
        while !signalled && queue.len() > 0
            invariant
                taken <= whole.len(),
                whole.len() <= usize::MAX,
                queue@ == whole.skip(taken as int),
                signalled ==> taken >= 1,
            decreases queue@.len() + (if signalled { 0int } else { 1int }),
        {
            let ghost before = queue@;
            match queue.pop_front() {
                Some(tx) => {
                    signalled = signal(tx);
                    taken = taken + 1;
                    assert(queue@ =~= whole.skip(taken as int));
                },
                None => {},
            }
        }
        self.restore(key, queue);
        proof {
            let k = contents(*key);
            let rest = queue_of(old(self)@, k).skip(taken as int);
            assert(with_queue(old(self)@.remove(k), k, rest) =~= with_queue(old(self)@, k, rest));
        }
        Woken { taken, signalled }
    }

    /// Drops the handles of `key` whose receiver has gone away. What stays
    /// keeps its order. Which handles those are is for the channels to say.
    pub fn forget_closed(&mut self, key: &Bytes)
        requires
            old(self).wf(),
        ensures
            final(self).wf(),
            final(self)@.remove(contents(*key)) == old(self)@.remove(contents(*key)),
            is_cleaned(
                queue_of(final(self)@, contents(*key)),
                queue_of(old(self)@, contents(*key)),
            ),
            queue_of(final(self)@, contents(*key)).len() <= queue_of(
                old(self)@,
                contents(*key),
            ).len(),
    {
        let queue = self.take(key);
        let mut closed: Vec<bool> = Vec::new();
        let mut i: usize = 0;
        while i < queue.len()
            invariant
                i <= queue.len(),
                closed@.len() == i,
            decreases queue.len() - i,
        {
            closed.push(abandoned(&queue[i]));
            i = i + 1;
        }
        let ghost whole = queue@;
        let kept = without_closed(queue, &closed);
        proof {
            lemma_still_open_len(whole, closed@, whole.len());
        }
        self.restore(key, kept);
        proof {
            let k = contents(*key);
            assert(self@.remove(k) =~= old(self)@.remove(k));
            assert(queue_of(self@, k) =~= still_open(whole, closed@));
        }
    }
}

} // verus!
