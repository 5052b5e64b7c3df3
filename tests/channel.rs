use native_bridge::channel::{CallMode, CallOutcome, Channel, ChannelError};
use native_bridge::messages::{hello_message, send_hello_messages, Message, HELLO_CALLS};

#[test]
fn eleven_greetings_are_delivered_in_call_order() {
    let mut ch: Channel<Message> = Channel::new(0);
    assert_eq!(send_hello_messages(&mut ch), 11);
    assert_eq!(HELLO_CALLS, 11);
    assert_eq!(ch.pending(), 11);
    let mut delivered = Vec::new();
    while let Some((seq, m)) = ch.deliver() {
        assert_eq!(m.value, "hello message");
        assert_eq!(m.id, 13);
        delivered.push(seq);
    }
    assert_eq!(delivered, (0..11).collect::<Vec<u64>>());
}

#[test]
fn delivery_follows_enqueue_order_across_callers() {
    let mut ch: Channel<u32> = Channel::new(0);
    assert_eq!(ch.clone_reference(), Ok(()));
    let values = [5u32, 1, 4, 2, 3];
    for &v in values.iter() {
        match ch.call(v, CallMode::NonBlocking) {
            Ok(CallOutcome::Queued(_)) => {}
            other => panic!("unexpected {:?}", other),
        }
    }
    assert!(matches!(ch.deliver(), Some((0, 5))));
    assert!(matches!(ch.call(9, CallMode::Blocking), Ok(CallOutcome::Queued(5))));
    let rest: Vec<(u64, u32)> = std::iter::from_fn(|| ch.deliver()).collect();
    assert_eq!(rest, vec![(1, 1), (2, 4), (3, 2), (4, 3), (5, 9)]);
    assert!(ch.deliver().is_none());
}

#[test]
fn full_queue_rejects_non_blocking_call() {
    let mut ch: Channel<u32> = Channel::new(1);
    assert_eq!(ch.capacity(), 1);
    assert!(matches!(ch.call(1, CallMode::NonBlocking), Ok(CallOutcome::Queued(0))));
    assert!(matches!(ch.call(2, CallMode::NonBlocking), Err(ChannelError::Saturated)));
    assert_eq!(ch.pending(), 1);
}

#[test]
fn full_queue_makes_blocking_call_wait() {
    let mut ch: Channel<u32> = Channel::new(1);
    assert!(matches!(ch.call(1, CallMode::Blocking), Ok(CallOutcome::Queued(0))));
    let back = match ch.call(2, CallMode::Blocking) {
        Ok(CallOutcome::Wait(v)) => v,
        other => panic!("unexpected {:?}", other),
    };
    assert_eq!(back, 2);
    assert!(matches!(ch.deliver(), Some((0, 1))));
    assert!(matches!(ch.call(back, CallMode::Blocking), Ok(CallOutcome::Queued(1))));
}

#[test]
fn released_channel_rejects_calls() {
    let mut ch: Channel<u32> = Channel::new(0);
    assert_eq!(ch.release(), Ok(()));
    assert_eq!(ch.references(), 0);
    assert!(matches!(ch.call(1, CallMode::NonBlocking), Err(ChannelError::Invalid)));
    assert!(matches!(ch.call(1, CallMode::Blocking), Err(ChannelError::Invalid)));
    assert_eq!(ch.release(), Err(ChannelError::Invalid));
    assert_eq!(ch.clone_reference(), Err(ChannelError::Invalid));
    assert!(ch.is_finalized());
}

#[test]
fn calls_queued_before_release_are_still_delivered() {
    let mut ch: Channel<u32> = Channel::new(0);
    assert_eq!(ch.clone_reference(), Ok(()));
    assert_eq!(ch.references(), 2);
    assert!(matches!(ch.call(7, CallMode::NonBlocking), Ok(CallOutcome::Queued(0))));
    assert_eq!(ch.release(), Ok(()));
    assert!(matches!(ch.call(8, CallMode::NonBlocking), Ok(CallOutcome::Queued(1))));
    assert_eq!(ch.release(), Ok(()));
    assert!(!ch.is_finalized());
    assert!(matches!(ch.call(9, CallMode::NonBlocking), Err(ChannelError::Invalid)));
    assert!(matches!(ch.deliver(), Some((0, 7))));
    assert!(matches!(ch.deliver(), Some((1, 8))));
    assert!(ch.is_finalized());
}

#[test]
fn greetings_stop_at_the_queue_bound() {
    let mut ch: Channel<Message> = Channel::new(4);
    assert_eq!(send_hello_messages(&mut ch), 4);
    assert_eq!(ch.pending(), 4);
    let mut released: Channel<Message> = Channel::new(0);
    assert_eq!(released.release(), Ok(()));
    assert_eq!(send_hello_messages(&mut released), 0);
    let m = hello_message();
    assert_eq!((m.value.as_str(), m.id), ("hello message", 13));
}
