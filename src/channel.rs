use vstd::prelude::*;

verus! {

/// How a caller asks for a call to be enqueued.
#[derive(Clone, Copy, Debug, PartialEq, Eq, Structural)]
pub enum CallMode {
    /// Wait for room when the queue is full.
    Blocking,
    /// Fail at once when the queue is full.
    NonBlocking,
}

/// Why a channel operation was refused.
#[derive(Clone, Copy, Debug, PartialEq, Eq, Structural)]
pub enum ChannelError {
    /// The queue is full (or no sequence number or reference is left to hand
    /// out) and the caller asked not to wait.
    Saturated,
    /// Every reference to the channel has been released.
    Invalid,
}

/// What became of an accepted call.
#[derive(Debug)]
pub enum CallOutcome<T> {
    /// Enqueued under this sequence number.
    Queued(u64),
    /// The queue is full: the value comes back, and a blocking caller waits
    /// for room and calls again.
    Wait(T),
}

/// The decision a channel in a given state makes on a call.
#[derive(Clone, Copy, Debug, PartialEq, Eq, Structural)]
pub enum Verdict {
    Enqueue,
    Wait,
    Reject(ChannelError),
}

/// The mathematical state of a channel: the calls waiting for delivery (with
/// their sequence numbers), the calls already delivered, the bound on the
/// queue (0 for none) and the number of live references.
pub struct ChannelView<T> {
    pub queue: Seq<(u64, T)>,
    pub delivered: Seq<(u64, T)>,
    pub capacity: nat,
    pub refs: nat,
}

impl<T> ChannelView<T> {
    /// The sequence number the next accepted call receives.
    pub open spec fn next_seq(self) -> nat {
        self.delivered.len() + self.queue.len()
    }

    /// Every call accepted so far, in the order it was accepted.
    pub open spec fn accepted(self) -> Seq<(u64, T)> {
        self.delivered + self.queue
    }

    pub open spec fn is_full(self) -> bool {
        self.capacity > 0 && self.queue.len() >= self.capacity
    }

    /// Calls are numbered from 0 in the order they are accepted, and both the
    /// delivered calls and the waiting ones keep that order.
    pub open spec fn wf(self) -> bool {
        &&& self.next_seq() <= u64::MAX
        &&& forall|i: int| 0 <= i < self.accepted().len() ==> (#[trigger] self.accepted()[i]).0 == i
    }

    /// How a call in `mode` is decided.
    pub open spec fn verdict(self, mode: CallMode) -> Verdict {
        if self.refs == 0 {
            Verdict::Reject(ChannelError::Invalid)
        } else if self.next_seq() == u64::MAX {
            Verdict::Reject(ChannelError::Saturated)
        } else if self.is_full() {
            match mode {
                CallMode::Blocking => Verdict::Wait,
                CallMode::NonBlocking => Verdict::Reject(ChannelError::Saturated),
            }
        } else {
            Verdict::Enqueue
        }
    }

    pub open spec fn enqueue_spec(self, value: T) -> ChannelView<T> {
        ChannelView { queue: self.queue.push((self.next_seq() as u64, value)), ..self }
    }

    pub open spec fn deliver_spec(self) -> ChannelView<T> {
        ChannelView {
            queue: self.queue.drop_first(),
            delivered: self.delivered.push(self.queue[0]),
            ..self
        }
    }

    pub open spec fn release_spec(self) -> ChannelView<T> {
        ChannelView { refs: (self.refs - 1) as nat, ..self }
    }
}

/// Delivery follows enqueue order: in a well-formed channel the calls are
/// delivered in strictly increasing sequence order, and every delivered call
/// was numbered before every call still waiting.
pub proof fn lemma_delivery_in_sequence_order<T>(v: ChannelView<T>)
    requires
        v.wf(),
    ensures
        forall|i: int, j: int|
            0 <= i < j < v.delivered.len() ==> (#[trigger] v.delivered[i]).0 < (
            #[trigger] v.delivered[j]).0,
        forall|i: int, j: int|
            0 <= i < v.delivered.len() && 0 <= j < v.queue.len() ==> (#[trigger] v.delivered[i]).0
                < (#[trigger] v.queue[j]).0,
        forall|i: int, j: int|
            0 <= i < j < v.queue.len() ==> (#[trigger] v.queue[i]).0 < (#[trigger] v.queue[j]).0,
{
    assert forall|i: int, j: int| 0 <= i < j < v.delivered.len() implies (
    #[trigger] v.delivered[i]).0 < (#[trigger] v.delivered[j]).0 by {
        assert(v.accepted()[i] == v.delivered[i]);
        assert(v.accepted()[j] == v.delivered[j]);
    }
    assert forall|i: int, j: int|
        0 <= i < v.delivered.len() && 0 <= j < v.queue.len() implies (
        #[trigger] v.delivered[i]).0 < (#[trigger] v.queue[j]).0 by {
        assert(v.accepted()[i] == v.delivered[i]);
        assert(v.accepted()[v.delivered.len() + j] == v.queue[j]);
    }
    assert forall|i: int, j: int| 0 <= i < j < v.queue.len() implies (#[trigger] v.queue[i]).0 < (
    #[trigger] v.queue[j]).0 by {
        assert(v.accepted()[v.delivered.len() + i] == v.queue[i]);
        assert(v.accepted()[v.delivered.len() + j] == v.queue[j]);
    }
}

/// A saturated bounded queue: a non-blocking call on a channel whose queue
/// of size one already holds an undelivered call is rejected as saturated,
/// never made to wait.
pub proof fn lemma_full_queue_rejects_non_blocking<T>(v: ChannelView<T>)
    requires
        v.wf(),
        v.capacity == 1,
        v.queue.len() == 1,
        v.refs > 0,
    ensures
        v.verdict(CallMode::NonBlocking) == Verdict::Reject(ChannelError::Saturated),
{
}

/// A released channel: once the last reference is released, every call is
/// rejected as invalid, whatever its mode.
pub proof fn lemma_released_channel_rejects<T>(v: ChannelView<T>, mode: CallMode)
    requires
        v.refs == 1,
    ensures
        v.release_spec().verdict(mode) == Verdict::Reject(ChannelError::Invalid),
{
}

/// A reference-counted handle to one runtime-owned callable. Any thread (under
/// the caller's lock) enqueues calls; the runtime thread delivers them one at
/// a time in the order they were accepted.
pub struct Channel<T> {
    queue: Vec<(u64, T)>,
    delivered: Ghost<Seq<(u64, T)>>,
    capacity: usize,
    refs: u64,
    next_seq: u64,
}

impl<T> View for Channel<T> {
    type V = ChannelView<T>;

    closed spec fn view(&self) -> ChannelView<T> {
        ChannelView {
            queue: self.queue@,
            delivered: self.delivered@,
            capacity: self.capacity as nat,
            refs: self.refs as nat,
        }
    }
}

impl<T> Channel<T> {
    /// The channel is well formed and its sequence counter is in step with
    /// the calls it accepted.
    pub closed spec fn wf(&self) -> bool {
        &&& self@.wf()
        &&& self.next_seq as nat == self@.next_seq()
    }

    /// A well-formed channel has a well-formed view.
    pub proof fn lemma_view_wf(&self)
        requires
            self.wf(),
        ensures
            self@.wf(),
    {
    }

    /// A channel over a runtime callable, with one reference held by its
    /// creator; `capacity` bounds the queue, 0 for no bound.
    pub fn new(capacity: usize) -> (r: Channel<T>)
        ensures
            r.wf(),
            r@.wf(),
            r@.queue.len() == 0,
            r@.delivered.len() == 0,
            r@.capacity == capacity as nat,
            r@.refs == 1,
    {
        Channel { queue: Vec::new(), delivered: Ghost(Seq::empty()), capacity, refs: 1, next_seq: 0 }
    }

    /// Enqueues `value` for delivery to the callable, as `verdict` decides:
    /// enqueued under the next sequence number, handed back to wait for room,
    /// or rejected.
    pub fn call(&mut self, value: T, mode: CallMode) -> (r: Result<CallOutcome<T>, ChannelError>)
        requires
            old(self).wf(),
        ensures
            final(self).wf(),
            final(self)@.wf(),
            match old(self)@.verdict(mode) {
                Verdict::Enqueue => r == Ok::<CallOutcome<T>, ChannelError>(
                    CallOutcome::Queued(old(self)@.next_seq() as u64),
                ) && final(self)@ == old(self)@.enqueue_spec(value),
                Verdict::Wait => r == Ok::<CallOutcome<T>, ChannelError>(CallOutcome::Wait(value))
                    && final(self)@ == old(self)@,
                Verdict::Reject(e) => r == Err::<CallOutcome<T>, ChannelError>(e) && final(self)@
                    == old(self)@,
            },
    {
        if self.refs == 0 {
            return Err(ChannelError::Invalid);
        }
        if self.next_seq == u64::MAX {
            return Err(ChannelError::Saturated);
        }
        if self.capacity > 0 && self.queue.len() >= self.capacity {
            return match mode {
                CallMode::Blocking => Ok(CallOutcome::Wait(value)),
                CallMode::NonBlocking => Err(ChannelError::Saturated),
            };
        }
        let seq = self.next_seq;
        self.queue.push((seq, value));
        self.next_seq = seq + 1;
        proof {
            let v = self@;
            let o = old(self)@;
            assert(v.accepted() =~= o.accepted().push((seq, value)));
            assert forall|i: int| 0 <= i < v.accepted().len() implies (
            #[trigger] v.accepted()[i]).0 == i by {
                if i < o.accepted().len() {
                    assert(v.accepted()[i] == o.accepted()[i]);
                }
            }
        }
        Ok(CallOutcome::Queued(seq))
    }

    /// Hands out one more reference to the channel.
    pub fn clone_reference(&mut self) -> (r: Result<(), ChannelError>)
        requires
            old(self).wf(),
        ensures
            final(self).wf(),
            final(self)@.wf(),
            old(self)@.refs == 0 ==> r == Err::<(), ChannelError>(ChannelError::Invalid)
                && final(self)@ == old(self)@,
            old(self)@.refs == u64::MAX ==> r == Err::<(), ChannelError>(ChannelError::Saturated)
                && final(self)@ == old(self)@,
            0 < old(self)@.refs < u64::MAX ==> r == Ok::<(), ChannelError>(()) && final(self)@
                == (ChannelView { refs: old(self)@.refs + 1, ..old(self)@ }),
    {
        if self.refs == 0 {
            return Err(ChannelError::Invalid);
        }
        if self.refs == u64::MAX {
            return Err(ChannelError::Saturated);
        }
        self.refs = self.refs + 1;
        assert(self@.accepted() =~= old(self)@.accepted());
        Ok(())
    }

    /// Gives up one reference. After the last one no call is accepted; the
    /// calls already queued are still delivered.
    pub fn release(&mut self) -> (r: Result<(), ChannelError>)
        requires
            old(self).wf(),
        ensures
            final(self).wf(),
            final(self)@.wf(),
            old(self)@.refs == 0 ==> r == Err::<(), ChannelError>(ChannelError::Invalid)
                && final(self)@ == old(self)@,
            old(self)@.refs > 0 ==> r == Ok::<(), ChannelError>(()) && final(self)@ == old(
                self,
            )@.release_spec(),
    {
        if self.refs == 0 {
            return Err(ChannelError::Invalid);
        }
        self.refs = self.refs - 1;
        assert(self@.accepted() =~= old(self)@.accepted());
        Ok(())
    }

    /// The runtime takes the oldest waiting call, to convert its value and
    /// invoke the callable with it; `None` when nothing waits.
    pub fn deliver(&mut self) -> (r: Option<(u64, T)>)
        requires
            old(self).wf(),
        ensures
            final(self).wf(),
            final(self)@.wf(),
            old(self)@.queue.len() == 0 ==> r == None::<(u64, T)> && final(self)@ == old(self)@,
            old(self)@.queue.len() > 0 ==> r == Some(old(self)@.queue[0]) && final(self)@ == old(
                self,
            )@.deliver_spec(),
    {
        if self.queue.len() == 0 {
            return None;
        }
        let ghost head = self.queue@[0];
        let item = self.queue.remove(0);
        self.delivered = Ghost(self.delivered@.push(head));
        proof {
            let v = self@;
            let o = old(self)@;
            assert(v.queue =~= o.queue.drop_first());
            assert(v.accepted() =~= o.accepted());
        }
        Some(item)
    }

    /// Whether the channel may be finalized: no reference is left and
    /// nothing waits for delivery.
    pub fn is_finalized(&self) -> (r: bool)
        ensures
            r == (self@.refs == 0 && self@.queue.len() == 0),
    {
        self.refs == 0 && self.queue.len() == 0
    }

    /// The number of live references.
    pub fn references(&self) -> (r: u64)
        ensures
            r as nat == self@.refs,
    {
        self.refs
    }

    /// The number of calls waiting for delivery.
    pub fn pending(&self) -> (r: usize)
        ensures
            r as nat == self@.queue.len(),
    {
        self.queue.len()
    }

    /// The bound on the queue, 0 for none.
    pub fn capacity(&self) -> (r: usize)
        ensures
            r as nat == self@.capacity,
    {
        self.capacity
    }
}

} // verus!
