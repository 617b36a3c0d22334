use async_lib::channel::{channel, Channel, ChannelState};
use async_lib::task::{Context, SimpleFuture, State, Waker};
use std::sync::atomic::{AtomicUsize, Ordering};
use std::sync::Arc;

fn counter() -> Arc<AtomicUsize> {
    Arc::new(AtomicUsize::new(0))
}

fn waker_counting_into(hits: &Arc<AtomicUsize>) -> Waker {
    let seen = hits.clone();
    Waker::new(Arc::new(move || {
        seen.fetch_add(1, Ordering::SeqCst);
    }))
}

#[test]
fn values_are_received_in_the_order_sent() {
    let (sender, receiver) = channel::<i32>();
    for value in 0..5 {
        sender.send(value);
    }
    let mut received = Vec::new();
    while let Some(value) = receiver.try_recv() {
        received.push(value);
    }
    assert_eq!(received, vec![0, 1, 2, 3, 4]);
}

#[test]
fn try_recv_on_a_new_channel_finds_nothing() {
    let (_sender, receiver) = channel::<String>();
    assert_eq!(receiver.try_recv(), None);
    assert_eq!(receiver.try_recv(), None);
}

#[test]
fn poll_on_an_empty_channel_is_pending_and_wakes_nobody() {
    let hits = counter();
    let (_sender, mut receiver) = channel::<u8>();
    let mut ctx = Context::new(waker_counting_into(&hits));
    assert!(matches!(receiver.poll(&mut ctx), State::Pending));
    assert_eq!(hits.load(Ordering::SeqCst), 0);
}

#[test]
fn send_wakes_a_pending_receiver_whose_next_poll_is_ready() {
    let hits = counter();
    let (sender, mut receiver) = channel::<u32>();
    let mut ctx = Context::new(waker_counting_into(&hits));
    assert!(matches!(receiver.poll(&mut ctx), State::Pending));
    sender.send(17);
    assert_eq!(hits.load(Ordering::SeqCst), 1);
    match receiver.poll(&mut ctx) {
        State::Ready(value) => assert_eq!(value, 17),
        State::Pending => panic!("the value was sent before this poll"),
    }
    assert_eq!(hits.load(Ordering::SeqCst), 1);
}

#[test]
fn send_with_no_waker_registered_wakes_nobody() {
    let hits = counter();
    let (sender, mut receiver) = channel::<u32>();
    sender.send(1);
    let mut ctx = Context::new(waker_counting_into(&hits));
    assert!(matches!(receiver.poll(&mut ctx), State::Ready(1)));
    sender.send(2);
    assert_eq!(hits.load(Ordering::SeqCst), 0);
}

#[test]
fn a_registered_waker_is_invoked_by_one_send_only() {
    let hits = counter();
    let (sender, mut receiver) = channel::<u32>();
    let mut ctx = Context::new(waker_counting_into(&hits));
    assert!(matches!(receiver.poll(&mut ctx), State::Pending));
    sender.send(1);
    sender.send(2);
    sender.send(3);
    assert_eq!(hits.load(Ordering::SeqCst), 1);
    assert_eq!(receiver.try_recv(), Some(1));
    assert_eq!(receiver.try_recv(), Some(2));
    assert_eq!(receiver.try_recv(), Some(3));
    assert_eq!(receiver.try_recv(), None);
}

#[test]
fn poll_on_a_filled_channel_registers_no_waker() {
    let hits = counter();
    let (sender, mut receiver) = channel::<u32>();
    sender.send(1);
    sender.send(2);
    let mut ctx = Context::new(waker_counting_into(&hits));
    assert!(matches!(receiver.poll(&mut ctx), State::Ready(1)));
    sender.send(3);
    assert_eq!(hits.load(Ordering::SeqCst), 0);
    assert!(matches!(receiver.poll(&mut ctx), State::Ready(2)));
    assert!(matches!(receiver.poll(&mut ctx), State::Ready(3)));
    assert!(matches!(receiver.poll(&mut ctx), State::Pending));
}

#[test]
fn a_later_registration_replaces_the_earlier_one() {
    let first = counter();
    let second = counter();
    let (sender, receiver) = channel::<u32>();
    receiver.register_waker(waker_counting_into(&first));
    receiver.register_waker(waker_counting_into(&second));
    sender.send(9);
    assert_eq!(first.load(Ordering::SeqCst), 0);
    assert_eq!(second.load(Ordering::SeqCst), 1);
    assert_eq!(receiver.try_recv(), Some(9));
}

#[test]
fn try_recv_then_register_waker_is_woken_by_the_next_send() {
    let hits = counter();
    let (sender, receiver) = channel::<String>();
    assert_eq!(receiver.try_recv(), None);
    receiver.register_waker(waker_counting_into(&hits));
    sender.send("done".to_string());
    assert_eq!(hits.load(Ordering::SeqCst), 1);
    assert_eq!(receiver.try_recv(), Some("done".to_string()));
}

#[test]
fn no_wakeup_is_missed_whichever_of_send_and_poll_comes_first() {
    for round in 0..1000u32 {
        let hits = counter();
        let (sender, mut receiver) = channel::<u32>();
        let mut ctx = Context::new(waker_counting_into(&hits));
        if round % 2 == 0 {
            assert!(matches!(receiver.poll(&mut ctx), State::Pending));
            sender.send(round);
            assert_eq!(hits.load(Ordering::SeqCst), 1);
        } else {
            sender.send(round);
            assert_eq!(hits.load(Ordering::SeqCst), 0);
        }
        match receiver.poll(&mut ctx) {
            State::Ready(value) => assert_eq!(value, round),
            State::Pending => panic!("round {}: the value was lost", round),
        }
        assert!(matches!(receiver.poll(&mut ctx), State::Pending));
    }
}

#[test]
fn ends_made_from_one_channel_are_connected() {
    let link: Channel<u64> = Channel::new();
    let sender = link.sender();
    let other_sender = link.sender();
    let mut receiver = link.receiver();
    sender.send(1);
    other_sender.send(2);
    let mut ctx = Context::new(Waker::noop());
    assert!(matches!(receiver.poll(&mut ctx), State::Ready(1)));
    assert_eq!(link.receiver().try_recv(), Some(2));
    assert_eq!(receiver.try_recv(), None);
}

#[test]
fn separate_channels_do_not_share_values() {
    let (first_sender, first_receiver) = channel::<u8>();
    let (_second_sender, second_receiver) = channel::<u8>();
    first_sender.send(5);
    assert_eq!(second_receiver.try_recv(), None);
    assert_eq!(first_receiver.try_recv(), Some(5));
}

#[test]
fn channel_state_send_returns_the_registered_waker() {
    let hits = counter();
    let mut state: ChannelState<u32> = ChannelState::new();
    assert!(state.send(1).is_none());
    assert_eq!(state.try_recv(), Some(1));
    let registered = state.register_waker(waker_counting_into(&hits));
    assert!(registered.invoke.is_none());
    assert!(registered.displaced.is_none());
    let woken = state.send(2);
    assert_eq!(hits.load(Ordering::SeqCst), 0);
    woken.expect("a waker was registered").wake();
    assert_eq!(hits.load(Ordering::SeqCst), 1);
    assert!(state.send(3).is_none());
    assert_eq!(state.try_recv(), Some(2));
    assert_eq!(state.try_recv(), Some(3));
    assert_eq!(state.try_recv(), None);
}

#[test]
fn channel_state_poll_registers_only_when_empty() {
    let hits = counter();
    let ctx = Context::new(waker_counting_into(&hits));
    let mut state: ChannelState<u32> = ChannelState::new();
    assert!(state.send(7).is_none());
    assert!(matches!(state.poll(&ctx), (State::Ready(7), None)));
    assert!(state.send(8).is_none());
    assert!(matches!(state.poll(&ctx), (State::Ready(8), None)));
    assert!(matches!(state.poll(&ctx), (State::Pending, None)));
    assert!(matches!(state.poll(&ctx), (State::Pending, Some(_))));
    assert!(state.send(9).is_some());
}

fn movable_to_a_thread<T: Send>(_value: &T) {}

#[test]
fn both_ends_can_be_moved_to_another_thread() {
    let (sender, receiver) = channel::<String>();
    movable_to_a_thread(&sender);
    movable_to_a_thread(&receiver);
    let link: Channel<Vec<u8>> = Channel::new();
    movable_to_a_thread(&link);
    movable_to_a_thread(&link.sender());
}

#[test]
fn woken_callback_may_receive_from_the_channel_that_woke_it() {
    let (sender, receiver) = channel::<u32>();
    let receiver = Arc::new(receiver);
    let taken = Arc::new(std::sync::Mutex::new(None));
    let inside = receiver.clone();
    let slot = taken.clone();
    receiver.register_waker(Waker::new(Arc::new(move || {
        *slot.lock().unwrap() = inside.try_recv();
    })));
    sender.send(5);
    assert_eq!(*taken.lock().unwrap(), Some(5));
    assert_eq!(receiver.try_recv(), None);
}

#[test]
fn interleaved_sends_and_receives_deliver_every_value_once_in_order() {
    let hits = counter();
    let (sender, mut receiver) = channel::<u32>();
    let mut ctx = Context::new(waker_counting_into(&hits));
    let mut delivered = Vec::new();
    let mut next = 0;
    for step in 0..60u32 {
        match step % 5 {
            0 | 3 => {
                sender.send(next);
                next += 1;
            }
            1 => {
                if let State::Ready(value) = receiver.poll(&mut ctx) {
                    delivered.push(value);
                }
            }
            2 => {
                if let State::Ready(value) = receiver.poll(&mut ctx) {
                    delivered.push(value);
                }
            }
            _ => {
                if let Some(value) = receiver.try_recv() {
                    delivered.push(value);
                }
            }
        }
    }
    while let Some(value) = receiver.try_recv() {
        delivered.push(value);
    }
    let sent: Vec<u32> = (0..next).collect();
    assert_eq!(next, 24);
    assert_eq!(delivered, sent);
}

#[test]
fn registration_after_a_missed_send_invokes_the_waker_at_once() {
    let hits = counter();
    let (sender, receiver) = channel::<u32>();
    assert_eq!(receiver.try_recv(), None);
    sender.send(4);
    receiver.register_waker(waker_counting_into(&hits));
    assert_eq!(hits.load(Ordering::SeqCst), 1);
    sender.send(5);
    assert_eq!(hits.load(Ordering::SeqCst), 1);
    assert_eq!(receiver.try_recv(), Some(4));
    assert_eq!(receiver.try_recv(), Some(5));
    assert_eq!(receiver.try_recv(), None);
}

#[test]
fn channel_state_registration_looks_at_the_buffer() {
    let first = counter();
    let second = counter();
    let mut state: ChannelState<u32> = ChannelState::new();
    let registered = state.register_waker(waker_counting_into(&first));
    assert!(registered.invoke.is_none() && registered.displaced.is_none());
    let registered = state.register_waker(waker_counting_into(&second));
    assert!(registered.invoke.is_none());
    registered.displaced.expect("the first waker was registered").wake();
    assert_eq!(first.load(Ordering::SeqCst), 1);
    state.send(1).expect("the second waker was registered").wake();
    assert_eq!(second.load(Ordering::SeqCst), 1);
    let registered = state.register_waker(waker_counting_into(&first));
    assert!(registered.displaced.is_none());
    registered.invoke.expect("a value waits").wake();
    assert_eq!(first.load(Ordering::SeqCst), 2);
    assert!(state.send(2).is_none());
    assert_eq!(state.try_recv(), Some(1));
    assert_eq!(state.try_recv(), Some(2));
}

struct Reentrant {
    receiver: Arc<async_lib::channel::Receiver<u32>>,
    seen: Arc<std::sync::Mutex<Vec<Option<u32>>>>,
}

impl Drop for Reentrant {
    fn drop(&mut self) {
        self.seen.lock().unwrap().push(self.receiver.try_recv());
    }
}

#[test]
fn displaced_waker_is_dropped_with_the_lock_released() {
    let seen = Arc::new(std::sync::Mutex::new(Vec::new()));
    let (sender, receiver) = channel::<u32>();
    let receiver = Arc::new(receiver);
    let held = Reentrant { receiver: receiver.clone(), seen: seen.clone() };
    receiver.register_waker(Waker::new(Arc::new(move || {
        let _ = &held;
    })));
    receiver.register_waker(Waker::noop());
    assert_eq!(*seen.lock().unwrap(), vec![None]);
    sender.send(3);
    assert_eq!(receiver.try_recv(), Some(3));
}
