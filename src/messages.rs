use vstd::prelude::*;
use vstd::string::*;

use crate::channel::{CallMode, CallOutcome, Channel, ChannelView};

verus! {

/// A payload handed through a callback channel: the runtime callable
/// receives it as an object with a `value` and an `id`.
#[derive(Debug)]
pub struct Message {
    pub value: String,
    pub id: i32,
}

/// The greeting that `send_hello_messages` sends.
pub open spec fn is_hello(m: Message) -> bool {
    m.value@ == "hello message"@ && m.id == 13
}

/// How many more calls a channel accepts without waiting.
pub open spec fn room<T>(v: ChannelView<T>) -> nat {
    if v.refs == 0 {
        0
    } else {
        let by_seq = (u64::MAX - v.next_seq()) as nat;
        if v.capacity == 0 {
            by_seq
        } else if v.capacity <= v.queue.len() {
            0
        } else {
            let by_queue = (v.capacity - v.queue.len()) as nat;
            if by_seq < by_queue {
                by_seq
            } else {
                by_queue
            }
        }
    }
}

/// The number of greetings `send_hello_messages` sends.
pub const HELLO_CALLS: usize = 11;

/// A fresh greeting message.
pub fn hello_message() -> (m: Message)
    ensures
        is_hello(m),
{
    Message { value: String::from_str("hello message"), id: 13 }
}

/// Sends the greeting `HELLO_CALLS` times through the channel without
/// blocking and returns how many calls were accepted: as many as the channel
/// had room for, at most `HELLO_CALLS`. Rejected calls are dropped.
pub fn send_hello_messages(ch: &mut Channel<Message>) -> (accepted: usize)
    requires
        old(ch).wf(),
    ensures
        final(ch).wf(),
        final(ch)@.wf(),
        accepted as nat == if room(old(ch)@) < HELLO_CALLS as nat {
            room(old(ch)@)
        } else {
            HELLO_CALLS as nat
        },
        final(ch)@.refs == old(ch)@.refs,
        final(ch)@.capacity == old(ch)@.capacity,
        final(ch)@.delivered == old(ch)@.delivered,
        final(ch)@.queue.len() == old(ch)@.queue.len() + accepted,
        final(ch)@.queue.take(old(ch)@.queue.len() as int) == old(ch)@.queue,
        forall|j: int|
            old(ch)@.queue.len() <= j < final(ch)@.queue.len() ==> is_hello(
                (#[trigger] final(ch)@.queue[j]).1,
            ),
{
    proof {
        ch.lemma_view_wf();
    }
    let ghost v0 = ch@;
    let mut accepted: usize = 0;
    let mut k: usize = 0;
    while k < HELLO_CALLS
        invariant
            ch.wf(),
            ch@.wf(),
            k <= HELLO_CALLS,
            accepted <= k,
            accepted as nat == if room(v0) < k as nat {
                room(v0)
            } else {
                k as nat
            },
            room(ch@) == room(v0) - accepted,
            ch@.refs == v0.refs,
            ch@.capacity == v0.capacity,
            ch@.delivered == v0.delivered,
            ch@.queue.len() == v0.queue.len() + accepted,
            ch@.queue.take(v0.queue.len() as int) == v0.queue,
            forall|j: int|
                v0.queue.len() <= j < ch@.queue.len() ==> is_hello((#[trigger] ch@.queue[j]).1),
        decreases HELLO_CALLS - k,
    {
        let ghost before = ch@;
        let r = ch.call(hello_message(), CallMode::NonBlocking);
        match r {
            Ok(CallOutcome::Queued(_)) => {
                accepted = accepted + 1;
                proof {
                    assert(ch@.queue.take(v0.queue.len() as int) =~= v0.queue) by {
                        assert(ch@.queue =~= before.queue.push(ch@.queue.last()));
                        assert(before.queue.take(v0.queue.len() as int) =~= v0.queue);
                    }
                    assert forall|j: int|
                        v0.queue.len() <= j < ch@.queue.len() implies is_hello(
                        (#[trigger] ch@.queue[j]).1,
                    ) by {
                        if j < before.queue.len() {
                            assert(ch@.queue[j] == before.queue[j]);
                        }
                    }
                }
            },
            _ => {},
        }
        k = k + 1;
    }
    accepted
}

} // verus!
