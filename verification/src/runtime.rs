//! The decisions of the per-step event loop, and the order contract of the
//! edges between steps. The loop itself — timers, channel awaits, task
//! spawning — runs outside this crate and consults these functions.
use vstd::prelude::*;

verus! {

/// Capacity of a pipeline edge; small, so backpressure propagates.
pub const DEFAULT_CHANNEL_CAPACITY: usize = 16;

/// The pre-select check of the step loop: a ready poll must run before the
/// loop waits again, so a ready poll is invoked at most one interval late
/// under sustained input load.
pub fn poll_is_due(elapsed_millis: u64, poll_interval_millis: u64) -> (r: bool)
    ensures
        r == (elapsed_millis >= poll_interval_millis),
{
    elapsed_millis >= poll_interval_millis
}

/// The forwarding rule of the step loop: an empty output batch is dropped,
/// anything else is sent downstream unchanged.
pub fn outputs_to_forward<T>(output: Vec<T>) -> (r: Option<Vec<T>>)
    ensures
        output@.len() == 0 ==> r is None,
        output@.len() > 0 ==> r == Some(output),
{
    if output.len() == 0 {
        None
    } else {
        Some(output)
    }
}

/// A bounded first-in-first-out edge between two steps, as the runtime's
/// channels behave: sends append, receives take the front, a full edge
/// accepts nothing — which is the backpressure.
pub struct FifoChannel<T> {
    pub items: Vec<T>,
    pub capacity: usize,
}

impl<T> FifoChannel<T> {
    /// An empty edge of the given capacity.
    pub fn new(capacity: usize) -> (r: FifoChannel<T>)
        ensures
            r.items@ == Seq::<T>::empty(),
            r.capacity == capacity,
    {
        FifoChannel { items: Vec::new(), capacity }
    }

    /// Appends a batch when there is room; reports whether it was taken.
    pub fn try_send(&mut self, item: T) -> (accepted: bool)
        ensures
            final(self).capacity == old(self).capacity,
            accepted == (old(self).items@.len() < old(self).capacity),
            accepted ==> final(self).items@ == old(self).items@.push(item),
            !accepted ==> final(self).items@ == old(self).items@,
    {
        if self.items.len() < self.capacity {
            self.items.push(item);
            true
        } else {
            false
        }
    }

    /// Takes the oldest batch, if any: exactly the order the sender used.
    pub fn recv(&mut self) -> (r: Option<T>)
        ensures
            final(self).capacity == old(self).capacity,
            old(self).items@.len() == 0 ==> (r is None && final(self).items@
                == old(self).items@),
            old(self).items@.len() > 0 ==> (r == Some(old(self).items@[0]) && final(self).items@
                == old(self).items@.skip(1)),
    {
        if self.items.len() == 0 {
            None
        } else {
            let item = self.items.remove(0);
            proof {
                assert(self.items@ =~= old(self).items@.skip(1));
            }
            Some(item)
        }
    }

    pub fn len(&self) -> (r: usize)
        ensures
            r == self.items@.len(),
    {
        self.items.len()
    }
}

/// One operation on an edge, for stating its order contract over a whole
/// run.
pub enum ChannelOp<T> {
    Send(T),
    Recv,
}

/// What a run of operations does to an edge: sends append, receives take
/// the front (a receive on an empty edge waits, so it changes nothing).
/// Returns the edge afterwards and everything received, in order.
pub open spec fn run_channel<T>(queue: Seq<T>, ops: Seq<ChannelOp<T>>) -> (Seq<T>, Seq<T>)
    decreases ops.len(),
{
    if ops.len() == 0 {
        (queue, Seq::empty())
    } else {
        match ops[0] {
            ChannelOp::Send(item) => run_channel(queue.push(item), ops.skip(1)),
            ChannelOp::Recv => {
                if queue.len() > 0 {
                    let rest = run_channel(queue.skip(1), ops.skip(1));
                    (rest.0, seq![queue[0]] + rest.1)
                } else {
                    run_channel(queue, ops.skip(1))
                }
            },
        }
    }
}

/// The values a run sends, in send order.
pub open spec fn sends_of<T>(ops: Seq<ChannelOp<T>>) -> Seq<T>
    decreases ops.len(),
{
    if ops.len() == 0 {
        Seq::empty()
    } else {
        match ops[0] {
            ChannelOp::Send(item) => seq![item] + sends_of(ops.skip(1)),
            ChannelOp::Recv => sends_of(ops.skip(1)),
        }
    }
}

/// First-in-first-out per edge: across any interleaving of sends and
/// receives, what the downstream step received, followed by what is still
/// queued, is exactly what was queued at the start followed by what the
/// upstream step sent, in send order. In particular the receiver sees
/// batches in exactly the order the sender produced them.
pub proof fn lemma_fifo_per_edge<T>(queue: Seq<T>, ops: Seq<ChannelOp<T>>)
    ensures
        ({
            let run = run_channel(queue, ops);
            run.1 + run.0 == queue + sends_of(ops)
        }),
    decreases ops.len(),
{
    if ops.len() == 0 {
        let run = run_channel(queue, ops);
        assert(run.1 + run.0 =~= queue);
        assert(queue + sends_of(ops) =~= queue);
    } else {
        match ops[0] {
            ChannelOp::Send(item) => {
                lemma_fifo_per_edge(queue.push(item), ops.skip(1));
                let run = run_channel(queue.push(item), ops.skip(1));
                assert(queue.push(item) + sends_of(ops.skip(1)) =~= queue + (seq![item]
                    + sends_of(ops.skip(1))));
            },
            ChannelOp::Recv => {
                if queue.len() > 0 {
                    lemma_fifo_per_edge(queue.skip(1), ops.skip(1));
                    let rest = run_channel(queue.skip(1), ops.skip(1));
                    assert((seq![queue[0]] + rest.1) + rest.0 =~= seq![queue[0]] + (rest.1
                        + rest.0));
                    assert(seq![queue[0]] + (queue.skip(1) + sends_of(ops.skip(1))) =~= queue
                        + sends_of(ops.skip(1)));
                } else {
                    lemma_fifo_per_edge(queue, ops.skip(1));
                }
            },
        }
    }
}

} // verus!
