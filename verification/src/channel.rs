//! An unbounded, ordered channel with one consumer, which wakes that consumer
//! when a value arrives after it found the channel empty.
//!
//! The rules of the channel are those of [`ChannelState`], a plain value with
//! exact contracts. [`Sender`] and [`Receiver`] share one such value behind a
//! mutex and apply one rule per lock acquisition, so every interleaving of
//! sends and receives is a sequence of these rules.

use crate::sync::lock;
use crate::sync::protected;
use crate::sync::share;
use crate::task::Context;
use crate::task::SimpleFuture;
use crate::task::State;
use crate::task::Waker;
use std::collections::VecDeque;
use std::sync::Arc;
use std::sync::Mutex;
use vstd::prelude::*;

verus! {

/// What a channel holds: the values sent and not yet received, oldest first,
/// and the waker of a consumer that found the channel empty, if one is
/// registered.
pub struct ChannelModel<T> {
    pub buffer: Seq<T>,
    pub waker: Option<Waker>,
}

impl<T> ChannelModel<T> {
    /// A channel that was just made.
    pub open spec fn empty() -> Self {
        ChannelModel { buffer: Seq::empty(), waker: None }
    }

    /// The waker that a send takes out of the channel and invokes: the one
    /// that is registered, if any.
    pub open spec fn woken(self) -> Option<Waker> {
        self.waker
    }

    /// The channel after `value` was sent: the value is last in the buffer
    /// and no waker is registered any more.
    pub open spec fn after_send(self, value: T) -> Self {
        ChannelModel { buffer: self.buffer.push(value), waker: None }
    }

    /// What a receive without a waker returns: the oldest value, if any.
    pub open spec fn received(self) -> Option<T> {
        if self.buffer.len() > 0 {
            Some(self.buffer[0])
        } else {
            None
        }
    }

    /// The channel after a receive without a waker: the oldest value is gone.
    pub open spec fn after_try_recv(self) -> Self {
        if self.buffer.len() > 0 {
            ChannelModel { buffer: self.buffer.subrange(1, self.buffer.len() as int), ..self }
        } else {
            self
        }
    }

    /// The channel after a registration of `waker`: on an empty buffer the
    /// waker is registered, in place of any other; while a value waits the
    /// channel stays as it is.
    pub open spec fn after_register(self, waker: Waker) -> Self {
        if self.buffer.len() > 0 {
            self
        } else {
            ChannelModel { waker: Some(waker), ..self }
        }
    }

    /// The waker that a registration of `waker` hands back to be invoked at
    /// once: `waker` itself while a value waits, none on an empty buffer.
    pub open spec fn turned_back(self, waker: Waker) -> Option<Waker> {
        if self.buffer.len() > 0 {
            Some(waker)
        } else {
            None
        }
    }

    /// The waker that a registration puts out of the channel: the one that
    /// was registered, where the buffer is empty.
    pub open spec fn displaced(self) -> Option<Waker> {
        if self.buffer.len() > 0 {
            None
        } else {
            self.waker
        }
    }

    /// What a poll answers: the oldest value, or `Pending` on an empty buffer.
    pub open spec fn polled(self) -> State<T> {
        if self.buffer.len() > 0 {
            State::Ready(self.buffer[0])
        } else {
            State::Pending
        }
    }

    /// The channel after a poll on behalf of `waker`: the oldest value is
    /// gone, or, on an empty buffer, `waker` is registered.
    pub open spec fn after_poll(self, waker: Waker) -> Self {
        if self.buffer.len() > 0 {
            self.after_try_recv()
        } else {
            self.after_register(waker)
        }
    }

    /// No value waits while a waker is registered: whoever registered it
    /// will be woken by the next send and has missed nothing.
    pub open spec fn attentive(self) -> bool {
        self.waker is Some ==> self.buffer.len() == 0
    }
}

/// One step in the life of a channel.
pub enum ChannelOp<T> {
    /// A sender sends the value.
    Send(T),
    /// The consumer polls, with the waker of its context.
    Poll(Waker),
    /// The consumer receives without a waker.
    TryRecv,
    /// The consumer registers the waker.
    Register(Waker),
}

impl<T> ChannelModel<T> {
    /// The channel after the step `op`.
    pub open spec fn after_op(self, op: ChannelOp<T>) -> Self {
        match op {
            ChannelOp::Send(value) => self.after_send(value),
            ChannelOp::Poll(waker) => self.after_poll(waker),
            ChannelOp::TryRecv => self.after_try_recv(),
            ChannelOp::Register(waker) => self.after_register(waker),
        }
    }

    /// What the step `op` hands to the consumer: one value or none.
    pub open spec fn handed_out(self, op: ChannelOp<T>) -> Seq<T> {
        match op {
            ChannelOp::Send(_) => Seq::empty(),
            ChannelOp::Register(_) => Seq::empty(),
            _ => if self.buffer.len() > 0 {
                seq![self.buffer[0]]
            } else {
                Seq::empty()
            },
        }
    }

    /// The channel after the steps `ops`, taken in order.
    pub open spec fn after_ops(self, ops: Seq<ChannelOp<T>>) -> Self
        decreases ops.len(),
    {
        if ops.len() == 0 {
            self
        } else {
            self.after_ops(ops.drop_last()).after_op(ops.last())
        }
    }

    /// All that the steps `ops` hand to the consumer, in order.
    pub open spec fn delivered(self, ops: Seq<ChannelOp<T>>) -> Seq<T>
        decreases ops.len(),
    {
        if ops.len() == 0 {
            Seq::empty()
        } else {
            let before = self.after_ops(ops.drop_last());
            self.delivered(ops.drop_last()) + before.handed_out(ops.last())
        }
    }
}

/// The values that the steps `ops` send, in order.
pub open spec fn sent<T>(ops: Seq<ChannelOp<T>>) -> Seq<T>
    decreases ops.len(),
{
    if ops.len() == 0 {
        Seq::empty()
    } else {
        match ops.last() {
            ChannelOp::Send(value) => sent(ops.drop_last()).push(value),
            _ => sent(ops.drop_last()),
        }
    }
}

/// However sends, polls, receives and registrations interleave, nothing is
/// lost, doubled or reordered, and nobody waits in vain: what was delivered,
/// followed by what still waits in the buffer, is what was there and what
/// was sent, in that order; and no waker stays registered while a value
/// waits.
pub proof fn lemma_every_interleaving_delivers_in_order<T>(
    start: ChannelModel<T>,
    ops: Seq<ChannelOp<T>>,
)
    requires
        start.attentive(),
    ensures
        start.delivered(ops) + start.after_ops(ops).buffer == start.buffer + sent(ops),
        start.after_ops(ops).attentive(),
    decreases ops.len(),
{
    if ops.len() == 0 {
        assert(start.delivered(ops) + start.buffer == start.buffer + sent(ops));
    } else {
        let earlier = ops.drop_last();
        lemma_every_interleaving_delivers_in_order(start, earlier);
        let before = start.after_ops(earlier);
        let handed = start.delivered(earlier);
        match ops.last() {
            ChannelOp::Send(value) => {
                assert((handed + Seq::<T>::empty()) + before.buffer.push(value) == (handed
                    + before.buffer).push(value));
                let sent_earlier = sent(earlier);
                assert(start.buffer + sent_earlier.push(value) == (start.buffer
                    + sent_earlier).push(value));
            },
            ChannelOp::Register(_) => {
                assert((handed + Seq::<T>::empty()) + before.buffer == handed + before.buffer);
            },
            _ => {
                if before.buffer.len() > 0 {
                    let rest = before.buffer.subrange(1, before.buffer.len() as int);
                    assert((handed + seq![before.buffer[0]]) + rest == handed + before.buffer);
                } else {
                    assert((handed + Seq::<T>::empty()) + before.buffer == handed
                        + before.buffer);
                }
            },
        }
    }
}

/// A send that follows a poll which answered `Pending` wakes the waker of
/// that poll, and the next poll answers the value that was sent: the consumer
/// needs no other signal.
pub proof fn lemma_send_reaches_pending_receiver<T>(
    channel: ChannelModel<T>,
    waker: Waker,
    value: T,
    later: Waker,
)
    requires
        channel.polled() is Pending,
    ensures
        channel.after_poll(waker).woken() == Some(waker),
        channel.after_poll(waker).after_send(value).polled() == State::Ready(value),
        channel.after_poll(waker).after_send(value).after_poll(later).buffer.len() == 0,
{
}

/// A send and a poll that race are applied in one order or the other, and
/// neither order loses the wakeup. If the poll comes first and finds
/// nothing, the send wakes its waker; if the send comes first, the poll
/// finds a value.
pub proof fn lemma_no_missed_wakeup<T>(channel: ChannelModel<T>, waker: Waker, value: T)
    ensures
        channel.polled() is Pending ==> channel.after_poll(waker).woken() == Some(waker),
        channel.after_send(value).polled() is Ready,
        channel.buffer.len() == 0 ==> channel.after_send(value).polled() == State::Ready(value),
{
}

/// A registration is as safe as a poll. Where a receive found nothing and a
/// send came before the consumer registered, the send found no waker to
/// invoke; the registration then finds the value, leaves it queued, stores
/// nothing and hands the waker back to be invoked at once.
pub proof fn lemma_late_registration_is_turned_back<T>(
    channel: ChannelModel<T>,
    value: T,
    waker: Waker,
)
    requires
        channel.attentive(),
        channel.received() is None,
    ensures
        channel.after_try_recv().after_send(value).turned_back(waker) == Some(waker),
        channel.after_try_recv().after_send(value).after_register(waker)
            == channel.after_try_recv().after_send(value),
        channel.after_try_recv().after_send(value).received() == Some(value),
        channel.turned_back(waker) is None,
        channel.after_register(waker).woken() == Some(waker),
{
}

/// A send leaves no waker behind: a waker is invoked by one send only, and
/// a second send in a row wakes nobody.
pub proof fn lemma_send_wakes_once<T>(channel: ChannelModel<T>, first: T, second: T)
    ensures
        channel.after_send(first).woken() is None,
        channel.after_send(first).after_send(second).woken() is None,
{
}

/// What a registration hands to its caller. Both wakers are for the time
/// after the state is released: one to be invoked, the other to be dropped.
pub struct Registered {
    /// The waker to invoke at once, because a value waits.
    pub invoke: Option<Waker>,
    /// The waker that was registered before and is so no longer.
    pub displaced: Option<Waker>,
}

/// The state that the handles of one channel share.
pub struct ChannelState<T> {
    buffer: VecDeque<T>,
    waker: Option<Waker>,
}

impl<T> View for ChannelState<T> {
    type V = ChannelModel<T>;

    closed spec fn view(&self) -> ChannelModel<T> {
        ChannelModel { buffer: self.buffer@, waker: self.waker }
    }
}

impl<T> ChannelState<T> {
    /// An empty buffer and no waker.
    pub fn new() -> (state: Self)
        ensures
            state@ == ChannelModel::<T>::empty(),
    {
        ChannelState { buffer: VecDeque::new(), waker: None }
    }

    /// Appends `value` and takes the registered waker out, for the caller to
    /// invoke once the state is released.
    pub fn send(&mut self, value: T) -> (woken: Option<Waker>)
        ensures
            final(self)@ == old(self)@.after_send(value),
            woken == old(self)@.woken(),
    {
        self.buffer.push_back(value);
        self.waker.take()
    }

    /// Removes and returns the oldest value, if there is one.
    pub fn try_recv(&mut self) -> (value: Option<T>)
        ensures
            final(self)@ == old(self)@.after_try_recv(),
            value == old(self)@.received(),
    {
        self.buffer.pop_front()
    }

    /// Registers `waker` where the buffer is empty, in place of a waker
    /// registered before, which is handed out. While a value waits nothing
    /// changes, and `waker` is handed back for the caller to invoke once the
    /// state is released: its owner has something to receive.
    pub fn register_waker(&mut self, waker: Waker) -> (registered: Registered)
        ensures
            final(self)@ == old(self)@.after_register(waker),
            registered.invoke == old(self)@.turned_back(waker),
            registered.displaced == old(self)@.displaced(),
    {
        if self.buffer.len() > 0 {
            Registered { invoke: Some(waker), displaced: None }
        } else {
            let displaced = self.waker.take();
            self.waker = Some(waker);
            Registered { invoke: None, displaced }
        }
    }

    /// Removes and returns the oldest value; on an empty buffer registers a
    /// copy of the context's waker and answers `Pending`. A waker that the
    /// registration puts out is handed out with the answer.
    pub fn poll(&mut self, ctx: &Context) -> (polled: (State<T>, Option<Waker>))
        ensures
            final(self)@ == old(self)@.after_poll(ctx.waker),
            polled.0 == old(self)@.polled(),
            polled.1 == old(self)@.displaced(),
    {
        match self.buffer.pop_front() {
            Some(value) => (State::Ready(value), None),
            None => {
                let displaced = self.waker.take();
                self.waker = Some(ctx.waker().clone());
                (State::Pending, displaced)
            },
        }
    }
}

/// A channel from which handles are made.
#[verifier::reject_recursive_types(T)]
pub struct Channel<T> {
    shared: Arc<Mutex<ChannelState<T>>>,
}

/// The sending side of a channel.
#[verifier::reject_recursive_types(T)]
pub struct Sender<T> {
    shared: Arc<Mutex<ChannelState<T>>>,
}

/// The receiving side of a channel.
#[verifier::reject_recursive_types(T)]
pub struct Receiver<T> {
    shared: Arc<Mutex<ChannelState<T>>>,
}

impl<T> Channel<T> {
    /// The mutex that all handles of this channel share.
    pub closed spec fn shared(&self) -> Mutex<ChannelState<T>> {
        *self.shared
    }

    /// A channel over a fresh, empty state.
    pub fn new() -> (channel: Self) {
        Channel { shared: Arc::new(Mutex::new(ChannelState::new())) }
    }

    /// A sender on this channel.
    pub fn sender(&self) -> (sender: Sender<T>)
        ensures
            sender.shared() == self.shared(),
    {
        Sender { shared: share(&self.shared) }
    }

    /// A receiver on this channel. The channel wakes one consumer only:
    /// of several receivers that wait, the last to register is woken.
    pub fn receiver(&self) -> (receiver: Receiver<T>)
        ensures
            receiver.shared() == self.shared(),
    {
        Receiver { shared: share(&self.shared) }
    }
}

/// A new channel, as its two ends.
pub fn channel<T>() -> (ends: (Sender<T>, Receiver<T>))
    ensures
        ends.0.shared() == ends.1.shared(),
{
    let shared = Arc::new(Mutex::new(ChannelState::new()));
    let sender = Sender { shared: share(&shared) };
    let receiver = Receiver { shared };
    (sender, receiver)
}

impl<T> Sender<T> {
    /// The mutex that all handles of this channel share.
    pub closed spec fn shared(&self) -> Mutex<ChannelState<T>> {
        *self.shared
    }

    /// Sends `value`: applies [`ChannelState::send`] to the shared state
    /// under its lock, then, with the lock released, invokes the waker that
    /// was registered, if one was.
    pub fn send(&self, value: T) {
        let woken = {
            let mut guard = lock(&self.shared);
            protected(&mut guard).send(value)
        };
        if let Some(waker) = woken {
            waker.wake();
        }
    }
}

impl<T> Receiver<T> {
    /// The mutex that all handles of this channel share.
    pub closed spec fn shared(&self) -> Mutex<ChannelState<T>> {
        *self.shared
    }

    /// Receives without waiting: applies [`ChannelState::try_recv`] to the
    /// shared state under its lock.
    pub fn try_recv(&self) -> (value: Option<T>) {
        let mut guard = lock(&self.shared);
        protected(&mut guard).try_recv()
    }

    /// Registers `waker` for the next send: applies
    /// [`ChannelState::register_waker`] to the shared state under its lock.
    /// Where a value waits, nothing is registered and `waker` is invoked
    /// instead, with the lock released, so that a value sent since the last
    /// receive is not missed. A waker that was registered before is dropped
    /// with the lock released.
    pub fn register_waker(&self, waker: Waker) {
        let registered = {
            let mut guard = lock(&self.shared);
            protected(&mut guard).register_waker(waker)
        };
        if let Some(waker) = registered.invoke {
            waker.wake();
        }
    }
}

impl<T: Send> SimpleFuture for Receiver<T> {
    type Output = T;

    /// Applies [`ChannelState::poll`] to the shared state under its lock.
    /// A waker that the poll puts out is dropped with the lock released.
    fn poll(&mut self, ctx: &mut Context) -> (state: State<T>) {
        let polled = {
            let mut guard = lock(&self.shared);
            protected(&mut guard).poll(ctx)
        };
        polled.0
    }
}

} // verus!
