//! A bounded first-in, first-out buffer of performance indicators.
//!
//! The buffer keeps the most recent records. A push into a full buffer drops
//! the oldest record and hands it back to the caller, so that no record
//! leaves unseen.

use crate::indicators::PerformanceIndicators;
use std::collections::VecDeque;
use vstd::prelude::*;

verus! {

/// The smaller of two numbers.
pub open spec fn at_most(n: nat, len: nat) -> nat {
    if n <= len {
        n
    } else {
        len
    }
}

/// What a buffer of `capacity` records that holds `held` holds after
/// `record` was pushed.
pub open spec fn after_push<T>(held: Seq<T>, capacity: nat, record: T) -> Seq<T> {
    if capacity == 0 {
        held
    } else if held.len() < capacity {
        held.push(record)
    } else {
        held.skip(1).push(record)
    }
}

/// The record that a push of `record` drops from a buffer of `capacity`
/// records that holds `held`: none while there is room, else the oldest (the
/// pushed record itself where the buffer has no room at all).
pub open spec fn evicted_by_push<T>(held: Seq<T>, capacity: nat, record: T) -> Option<T> {
    if capacity == 0 {
        Some(record)
    } else if held.len() < capacity {
        None
    } else {
        Some(held[0])
    }
}

/// What a request for `n` records gets from a buffer that holds `held`: the
/// oldest `n`, oldest first, or all where it holds fewer.
pub open spec fn drained<T>(held: Seq<T>, n: nat) -> Seq<T> {
    held.take(at_most(n, held.len()) as int)
}

/// What a buffer that holds `held` holds after a request for `n` records.
pub open spec fn after_drain<T>(held: Seq<T>, n: nat) -> Seq<T> {
    held.skip(at_most(n, held.len()) as int)
}

/// A request for up to `n` of the oldest records of a buffer.
#[derive(Clone, Copy, Debug, PartialEq, Eq)]
pub struct BufferDataRequest {
    pub n: usize,
}

/// The buffer stage: it takes every record that the pipeline produces and
/// hands the oldest ones out on request.
pub struct BufferSink {
    data_sink: VecDeque<PerformanceIndicators>,
    capacity: usize,
}

impl BufferSink {
    #[verifier::type_invariant]
    spec fn bounded(&self) -> bool {
        self.data_sink@.len() <= self.capacity
    }

    /// The records held, oldest first.
    pub closed spec fn view(&self) -> Seq<PerformanceIndicators> {
        self.data_sink@
    }

    /// The number of records that the buffer has room for.
    pub closed spec fn limit(&self) -> nat {
        self.capacity as nat
    }

    /// An empty buffer with room for `capacity` records.
    pub fn new(capacity: usize) -> (r: BufferSink)
        ensures
            r@.len() == 0,
            r.limit() == capacity,
    {
        BufferSink { data_sink: VecDeque::new(), capacity }
    }

    /// The number of records that the buffer has room for.
    pub fn capacity(&self) -> (r: usize)
        ensures
            r == self.limit(),
    {
        self.capacity
    }

    /// The number of records held, which never exceeds the capacity.
    pub fn len(&self) -> (r: usize)
        ensures
            r == self@.len(),
            r <= self.limit(),
    {
        proof {
            use_type_invariant(self);
        }
        self.data_sink.len()
    }

    /// Appends `record` as the newest. Where the buffer is full, the oldest
    /// record makes room and is returned.
    pub fn push(&mut self, record: PerformanceIndicators) -> (evicted: Option<
        PerformanceIndicators,
    >)
        ensures
            final(self).limit() == old(self).limit(),
            final(self)@ == after_push(old(self)@, old(self).limit(), record),
            evicted == evicted_by_push(old(self)@, old(self).limit(), record),
            final(self)@.len() <= final(self).limit(),
    {
        proof {
            use_type_invariant(&*self);
        }
        if self.capacity == 0 {
            return Some(record);
        }
        let mut queue: VecDeque<PerformanceIndicators> = VecDeque::new();
        std::mem::swap(&mut self.data_sink, &mut queue);
        let evicted = if queue.len() < self.capacity {
            None
        } else {
            queue.pop_front()
        };
        queue.push_back(record);
        assert(queue@ =~= after_push(old(self)@, old(self).limit(), record));
        std::mem::swap(&mut self.data_sink, &mut queue);
        evicted
    }

    /// Removes up to `n` of the oldest records and returns them, oldest
    /// first.
    pub fn drain(&mut self, n: usize) -> (r: Vec<PerformanceIndicators>)
        ensures
            final(self).limit() == old(self).limit(),
            r@ == drained(old(self)@, n as nat),
            final(self)@ == after_drain(old(self)@, n as nat),
            final(self)@.len() <= final(self).limit(),
    {
        proof {
            use_type_invariant(&*self);
        }
        let mut queue: VecDeque<PerformanceIndicators> = VecDeque::new();
        std::mem::swap(&mut self.data_sink, &mut queue);
        let mut resp: Vec<PerformanceIndicators> = Vec::new();
        let len: usize = queue.len();
        let max_amount: usize = if n <= len {
            n
        } else {
            len
        };
        let mut i: usize = 0;
        while i < max_amount
            invariant
                i <= max_amount <= old(self)@.len(),
                resp@ == old(self)@.take(i as int),
                queue@ == old(self)@.skip(i as int),
            decreases max_amount - i,
        {
            if let Some(v) = queue.pop_front() {
                resp.push(v);
            }
            assert(resp@ =~= old(self)@.take(i + 1));
            assert(queue@ =~= old(self)@.skip(i + 1));
            i += 1;
        }
        std::mem::swap(&mut self.data_sink, &mut queue);
        resp
    }

    /// Answers a request: see `drain`.
    pub fn handle(&mut self, msg: BufferDataRequest) -> (r: Vec<PerformanceIndicators>)
        ensures
            final(self).limit() == old(self).limit(),
            r@ == drained(old(self)@, msg.n as nat),
            final(self)@ == after_drain(old(self)@, msg.n as nat),
            final(self)@.len() <= final(self).limit(),
    {
        self.drain(msg.n)
    }
}

/// One call on a buffer.
pub enum BufferOp<T> {
    /// A push of this record.
    Push(T),
    /// A request for this many records.
    Drain(nat),
}

/// What a run of calls on a buffer has done, each sequence in the order in
/// which it happened.
pub struct Ledger<T> {
    /// The records that the buffer holds.
    pub held: Seq<T>,
    /// The records that were pushed.
    pub pushed: Seq<T>,
    /// The records that requests got.
    pub returned: Seq<T>,
    /// The records that pushes into a full buffer dropped.
    pub evicted: Seq<T>,
}

/// The ledger of a buffer of `capacity` records that started empty and took
/// the calls `ops`, one after the other.
pub open spec fn replay<T>(capacity: nat, ops: Seq<BufferOp<T>>) -> Ledger<T>
    decreases ops.len(),
{
    if ops.len() == 0 {
        Ledger {
            held: Seq::empty(),
            pushed: Seq::empty(),
            returned: Seq::empty(),
            evicted: Seq::empty(),
        }
    } else {
        let before = replay(capacity, ops.drop_last());
        match ops.last() {
            BufferOp::Push(record) => Ledger {
                held: after_push(before.held, capacity, record),
                pushed: before.pushed.push(record),
                returned: before.returned,
                evicted: match evicted_by_push(before.held, capacity, record) {
                    Some(dropped) => before.evicted.push(dropped),
                    None => before.evicted,
                },
            },
            BufferOp::Drain(n) => Ledger {
                held: after_drain(before.held, n),
                pushed: before.pushed,
                returned: before.returned + drained(before.held, n),
                evicted: before.evicted,
            },
        }
    }
}

/// Whatever calls a buffer takes, every record that was pushed is held, was
/// returned or was dropped, and is so once: the three counts add up to the
/// number of pushes. The buffer never holds more than its capacity, and what
/// it holds are the records pushed last, in the order of their pushes.
pub proof fn lemma_replay_conserves<T>(capacity: nat, ops: Seq<BufferOp<T>>)
    ensures
        ({
            let l = replay(capacity, ops);
            &&& l.returned.len() + l.evicted.len() + l.held.len() == l.pushed.len()
            &&& l.held.len() <= capacity
            &&& l.held == l.pushed.skip(l.pushed.len() - l.held.len())
        }),
    decreases ops.len(),
{
    let l = replay(capacity, ops);
    if ops.len() == 0 {
        assert(l.held =~= l.pushed.skip(0));
    } else {
        lemma_replay_conserves(capacity, ops.drop_last());
        let before = replay(capacity, ops.drop_last());
        assert(l.held =~= l.pushed.skip(l.pushed.len() - l.held.len()));
    }
}

/// While no push has found the buffer full, the records returned so far,
/// followed by the records held, are the records pushed, in the order of
/// their pushes: none is lost, none comes twice, and requests get them first
/// in, first out.
pub proof fn lemma_replay_fifo<T>(capacity: nat, ops: Seq<BufferOp<T>>)
    requires
        replay(capacity, ops).evicted.len() == 0,
    ensures
        ({
            let l = replay(capacity, ops);
            &&& l.returned + l.held == l.pushed
            &&& l.returned.len() + l.held.len() == l.pushed.len()
        }),
    decreases ops.len(),
{
    let l = replay(capacity, ops);
    if ops.len() == 0 {
        assert(l.returned + l.held =~= l.pushed);
    } else {
        let before = replay(capacity, ops.drop_last());
        lemma_replay_fifo(capacity, ops.drop_last());
        assert(before.returned + before.held == before.pushed);
        assert(l.returned + l.held =~= l.pushed);
    }
}

} // verus!
