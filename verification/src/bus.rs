//! The event bus: a process-wide fan-out of wire lines to subscribers, each
//! behind a bounded queue. A full queue drops the event for that subscriber
//! only; nothing ever blocks the publisher. Per subscriber, delivery is FIFO
//! in emission order — queued entries carry the emission ordinal and stay
//! strictly increasing.

use vstd::prelude::*;

use crate::event::{event_line_of, Event};

verus! {

/// The bounded queue capacity a plain subscription gets.
pub const SUBSCRIBER_CAPACITY: usize = 100;

/// One subscriber: an identity and a bounded queue of (emission ordinal,
/// wire line) entries.
pub struct Subscriber {
    pub id: u64,
    pub queue: Vec<(u64, String)>,
    pub capacity: usize,
}

/// The bus: the live subscribers and the counters naming the next
/// subscription and the next emission.
pub struct EventBus {
    pub subs: Vec<Subscriber>,
    pub next_id: u64,
    pub next_seq: u64,
}

/// A queue is well formed when its emission ordinals grow strictly and stay
/// below the bound.
pub open spec fn queue_wf(q: Seq<(u64, String)>, bound: u64) -> bool {
    &&& forall|i: int, j: int| 0 <= i < j < q.len() ==> q[i].0 < q[j].0
    &&& forall|i: int| 0 <= i < q.len() ==> (#[trigger] q[i]).0 < bound
}

/// The bus invariant: every queue is well formed under the next emission
/// ordinal, and no queue is over its capacity.
pub open spec fn bus_wf(b: EventBus) -> bool {
    forall|s: int| 0 <= s < b.subs@.len() ==> {
        &&& queue_wf((#[trigger] b.subs@[s]).queue@, b.next_seq)
        &&& b.subs@[s].queue@.len() <= b.subs@[s].capacity
    }
}

impl EventBus {
    /// A bus with no subscribers.
    pub fn new() -> (r: EventBus)
        ensures
            r.subs@.len() == 0,
            r.next_id == 0,
            r.next_seq == 0,
            bus_wf(r),
    {
        EventBus { subs: Vec::new(), next_id: 0, next_seq: 0 }
    }

    /// Subscribes with a queue of the given capacity; returns the
    /// subscriber's identity. A late subscriber starts with an empty queue:
    /// it sees only what is emitted after this call.
    pub fn subscribe_with(&mut self, capacity: usize) -> (id: u64)
        requires
            old(self).next_id < u64::MAX,
            bus_wf(*old(self)),
        ensures
            id == old(self).next_id,
            final(self).next_id == old(self).next_id + 1,
            final(self).next_seq == old(self).next_seq,
            final(self).subs@.len() == old(self).subs@.len() + 1,
            forall|s: int| 0 <= s < old(self).subs@.len()
                ==> final(self).subs@[s] == old(self).subs@[s],
            final(self).subs@.last().id == id,
            final(self).subs@.last().queue@.len() == 0,
            final(self).subs@.last().capacity == capacity,
            bus_wf(*final(self)),
    {
        let id = self.next_id;
        self.subs.push(Subscriber { id, queue: Vec::new(), capacity });
        self.next_id = id + 1;
        id
    }

    /// Subscribes with the bus's standard capacity.
    pub fn subscribe(&mut self) -> (id: u64)
        requires
            old(self).next_id < u64::MAX,
            bus_wf(*old(self)),
        ensures
            id == old(self).next_id,
            final(self).next_id == old(self).next_id + 1,
            final(self).next_seq == old(self).next_seq,
            final(self).subs@.len() == old(self).subs@.len() + 1,
            forall|s: int| 0 <= s < old(self).subs@.len()
                ==> final(self).subs@[s] == old(self).subs@[s],
            final(self).subs@.last().id == id,
            final(self).subs@.last().queue@.len() == 0,
            final(self).subs@.last().capacity == SUBSCRIBER_CAPACITY,
            bus_wf(*final(self)),
    {
        self.subscribe_with(SUBSCRIBER_CAPACITY)
    }

    /// Emits an event: its wire line is enqueued for every subscriber whose
    /// queue has room, stamped with this emission's ordinal. A full queue
    /// drops this event for that subscriber alone; the publisher never
    /// waits.
    #[verifier::loop_isolation(false)]
    pub fn emit(&mut self, e: &Event)
        requires
            e.at <= i64::MAX as u64,
            old(self).next_seq < u64::MAX,
            bus_wf(*old(self)),
        ensures
            final(self).next_seq == old(self).next_seq + 1,
            final(self).next_id == old(self).next_id,
            final(self).subs@.len() == old(self).subs@.len(),
            forall|s: int| 0 <= s < old(self).subs@.len() ==> {
                let pre = old(self).subs@[s];
                let post = #[trigger] final(self).subs@[s];
                &&& post.id == pre.id
                &&& post.capacity == pre.capacity
                &&& if pre.queue@.len() < pre.capacity {
                    &&& post.queue@.len() == pre.queue@.len() + 1
                    &&& post.queue@.drop_last() == pre.queue@
                    &&& post.queue@.last().0 == old(self).next_seq
                    &&& post.queue@.last().1@ == event_line_of(*e)
                } else {
                    post.queue@ == pre.queue@
                }
            },
            bus_wf(*final(self)),
    {
        let line = e.to_line();
        let seq_no = self.next_seq;
        let ghost pre_subs = self.subs@;
        let mut i: usize = 0;
        while i < self.subs.len()
            invariant
                i <= pre_subs.len(),
                self.subs@.len() == pre_subs.len(),
                self.next_seq == old(self).next_seq,
                self.next_id == old(self).next_id,
                forall|s: int| i <= s < pre_subs.len() ==> self.subs@[s] == pre_subs[s],
                forall|s: int| 0 <= s < i ==> {
                    let pre = pre_subs[s];
                    let post = #[trigger] self.subs@[s];
                    &&& post.id == pre.id
                    &&& post.capacity == pre.capacity
                    &&& if pre.queue@.len() < pre.capacity {
                        &&& post.queue@.len() == pre.queue@.len() + 1
                        &&& post.queue@.drop_last() == pre.queue@
                        &&& post.queue@.last().0 == seq_no
                        &&& post.queue@.last().1@ == event_line_of(*e)
                    } else {
                        post.queue@ == pre.queue@
                    }
                },
            decreases pre_subs.len() - i,
        {
            let mut sub = self.subs.remove(i);
            let ghost pre_q = sub.queue@;
            if sub.queue.len() < sub.capacity {
                sub.queue.push((seq_no, line.clone()));
                proof {
                    assert(sub.queue@.drop_last() =~= pre_q);
                }
            }
            self.subs.insert(i, sub);
            i += 1;
        }
        self.next_seq = seq_no + 1;
        proof {
            assert forall|s: int| 0 <= s < self.subs@.len() implies {
                &&& queue_wf((#[trigger] self.subs@[s]).queue@, self.next_seq)
                &&& self.subs@[s].queue@.len() <= self.subs@[s].capacity
            } by {
                let pre = pre_subs[s];
                assert(queue_wf(pre.queue@, old(self).next_seq));
                assert(pre.queue@.len() <= pre.capacity);
                let post = self.subs@[s];
                if pre.queue@.len() < pre.capacity {
                    assert forall|x: int, y: int| 0 <= x < y < post.queue@.len()
                        implies post.queue@[x].0 < post.queue@[y].0 by {
                        if y < post.queue@.len() - 1 {
                            assert(post.queue@.drop_last()[x] == post.queue@[x]);
                            assert(post.queue@.drop_last()[y] == post.queue@[y]);
                        } else {
                            assert(post.queue@.drop_last()[x] == post.queue@[x]);
                            assert(pre.queue@[x].0 < old(self).next_seq);
                        }
                    }
                    assert forall|x: int| 0 <= x < post.queue@.len()
                        implies (#[trigger] post.queue@[x]).0 < self.next_seq by {
                        if x < post.queue@.len() - 1 {
                            assert(post.queue@.drop_last()[x] == post.queue@[x]);
                        }
                    }
                }
            }
        }
    }

    /// Hands the subscriber its oldest queued line, with its emission
    /// ordinal; nothing when its queue is empty or the identity is unknown.
    #[verifier::loop_isolation(false)]
    pub fn recv(&mut self, id: u64) -> (r: Option<(u64, String)>)
        requires
            bus_wf(*old(self)),
        ensures
            final(self).next_seq == old(self).next_seq,
            final(self).next_id == old(self).next_id,
            final(self).subs@.len() == old(self).subs@.len(),
            bus_wf(*final(self)),
            match r {
                Some(entry) => exists|s: int| {
                    &&& 0 <= s < old(self).subs@.len()
                    &&& (#[trigger] old(self).subs@[s]).id == id
                    &&& old(self).subs@[s].queue@.len() > 0
                    &&& entry == old(self).subs@[s].queue@[0]
                    &&& final(self).subs@[s].queue@ == old(self).subs@[s].queue@.drop_first()
                    &&& final(self).subs@[s].id == id
                    &&& final(self).subs@[s].capacity == old(self).subs@[s].capacity
                    &&& forall|t: int| 0 <= t < old(self).subs@.len() && t != s
                        ==> final(self).subs@[t] == old(self).subs@[t]
                },
                None => final(self).subs@ == old(self).subs@,
            },
    {
        let mut i: usize = 0;
        while i < self.subs.len()
            invariant
                i <= self.subs@.len(),
                self.subs@ == old(self).subs@,
                self.next_id == old(self).next_id,
                self.next_seq == old(self).next_seq,
            decreases self.subs@.len() - i,
        {
            if self.subs[i].id == id {
                if self.subs[i].queue.len() == 0 {
                    return None;
                }
                let mut sub = self.subs.remove(i);
                let entry = sub.queue.remove(0);
                proof {
                    assert(sub.queue@ =~= old(self).subs@[i as int].queue@.drop_first());
                }
                self.subs.insert(i, sub);
                proof {
                    let ghost s = i as int;
                    assert(final(self).subs@[s].queue@ == old(self).subs@[
                        s
                    ].queue@.drop_first());
                    assert forall|x: int, y: int|
                        0 <= x < y < self.subs@[s].queue@.len()
                        implies self.subs@[s].queue@[x].0 < self.subs@[s].queue@[y].0 by {
                        assert(self.subs@[s].queue@[x] == old(self).subs@[s].queue@[x + 1]);
                        assert(self.subs@[s].queue@[y] == old(self).subs@[s].queue@[y + 1]);
                    }
                    assert forall|x: int| 0 <= x < self.subs@[s].queue@.len()
                        implies (#[trigger] self.subs@[s].queue@[x]).0 < self.next_seq by {
                        assert(self.subs@[s].queue@[x] == old(self).subs@[s].queue@[x + 1]);
                    }
                }
                return Some(entry);
            }
            i += 1;
        }
        None
    }

    /// Forgets the subscribers named dead: the liveness probe's sweep.
    #[verifier::loop_isolation(false)]
    pub fn prune(&mut self, dead: &Vec<u64>)
        requires
            bus_wf(*old(self)),
        ensures
            bus_wf(*final(self)),
            final(self).next_seq == old(self).next_seq,
            final(self).next_id == old(self).next_id,
            final(self).subs@ == live_subs(old(self).subs@, dead@),
    {
        let ghost pre = self.subs@;
        let mut out: Vec<Subscriber> = Vec::new();
        let ghost mut i: int = 0;
        while self.subs.len() > 0
            invariant
                0 <= i <= pre.len(),
                self.subs@ =~= pre.skip(i),
                out@ == live_subs(pre.take(i), dead@),
                self.next_id == old(self).next_id,
                self.next_seq == old(self).next_seq,
            decreases self.subs@.len(),
        {
            let ghost pre_out = out@;
            let sub = self.subs.remove(0);
            proof {
                assert(sub == pre[i]);
                assert(pre.skip(i).drop_first() =~= pre.skip(i + 1));
            }
            let sub_id = sub.id;
            let mut is_dead = false;
            let mut k: usize = 0;
            while k < dead.len()
                invariant
                    k <= dead@.len(),
                    is_dead == exists|d: int| 0 <= d < k && dead@[d] == sub_id,
                decreases dead@.len() - k,
            {
                if dead[k] == sub_id {
                    is_dead = true;
                    proof {
                        assert(dead@[k as int] == sub_id);
                    }
                }
                k += 1;
            }
            if !is_dead {
                out.push(sub);
                proof {
                    assert(out@.drop_last() =~= pre_out);
                }
            }
            proof {
                assert(pre.take(i + 1).drop_last() =~= pre.take(i));
                assert(pre.take(i + 1).last() == pre[i]);
                i = i + 1;
            }
        }
        proof {
            assert(i == pre.len());
            assert(pre.take(pre.len() as int) =~= pre);
        }
        self.subs = out;
        proof {
            lemma_live_subs(pre, dead@);
            assert forall|s: int| 0 <= s < self.subs@.len() implies {
                &&& queue_wf((#[trigger] self.subs@[s]).queue@, self.next_seq)
                &&& self.subs@[s].queue@.len() <= self.subs@[s].capacity
            } by {
                let j = choose|j: int| 0 <= j < pre.len() && live_subs(pre, dead@)[s] == pre[j];
                assert(queue_wf(pre[j].queue@, self.next_seq));
            }
        }
    }
}

/// The subscribers that survive a sweep: those whose id is not listed dead.
pub open spec fn live_subs(subs: Seq<Subscriber>, dead: Seq<u64>) -> Seq<Subscriber>
    decreases subs.len(),
{
    if subs.len() == 0 {
        Seq::empty()
    } else {
        let rest = live_subs(subs.drop_last(), dead);
        if exists|d: int| 0 <= d < dead.len() && dead[d] == subs.last().id {
            rest
        } else {
            rest.push(subs.last())
        }
    }
}

/// Every surviving subscriber stood in the list before the sweep.
pub proof fn lemma_live_subs(subs: Seq<Subscriber>, dead: Seq<u64>)
    ensures
        forall|i: int| 0 <= i < live_subs(subs, dead).len() ==> exists|j: int|
            0 <= j < subs.len() && #[trigger] live_subs(subs, dead)[i] == subs[j],
    decreases subs.len(),
{
    if subs.len() > 0 {
        lemma_live_subs(subs.drop_last(), dead);
        assert forall|i: int| 0 <= i < live_subs(subs, dead).len() implies exists|j: int|
            0 <= j < subs.len() && #[trigger] live_subs(subs, dead)[i] == subs[j] by {
            let rest = live_subs(subs.drop_last(), dead);
            if i < rest.len() {
                let j = choose|j: int| 0 <= j < subs.drop_last().len() && rest[i]
                    == subs.drop_last()[j];
                assert(subs[j] == subs.drop_last()[j]);
            } else {
                assert(live_subs(subs, dead)[i] == subs[subs.len() - 1]);
            }
        }
    }
}

/// Per-subscriber FIFO: whatever a well-formed bus holds for one subscriber
/// stands in emission order, so the lines it receives, oldest first, come in
/// the order they were emitted.
pub proof fn law_fifo_per_subscriber(b: EventBus, s: int, x: int, y: int)
    requires
        bus_wf(b),
        0 <= s < b.subs@.len(),
        0 <= x < y < b.subs@[s].queue@.len(),
    ensures
        b.subs@[s].queue@[x].0 < b.subs@[s].queue@[y].0,
{
}

} // verus!
