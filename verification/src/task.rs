//! Poll results, wakers, poll contexts and the future traits.

use crate::notifier::Notifier;
use crate::sync::share;
use std::sync::Arc;
use vstd::prelude::*;

verus! {

/// What one poll of a future answers.
pub enum State<T> {
    /// No output yet; poll again after a wake.
    Pending,
    /// The output. A future that answered `Ready` is not polled again.
    Ready(T),
}

/// A callback that may be invoked from any thread, any number of times.
/// It stands for "any shared thread-safe closure" where a type is needed.
trait Wake: Send + Sync {
    /// Whether the callback may be invoked.
    spec fn callable(&self) -> bool;

    /// What the callback promises of a call that has returned.
    spec fn done(&self) -> bool;

    /// Invokes the callback.
    fn wake(&self)
        requires
            self.callable(),
        ensures
            self.done(),
    ;
}

impl<F: Fn() + Send + Sync + ?Sized> Wake for Arc<F> {
    spec fn callable(&self) -> bool {
        call_requires(&**self, ())
    }

    spec fn done(&self) -> bool {
        call_ensures(&**self, (), ())
    }

    fn wake(&self) {
        (**self)()
    }
}

/// A callback that is fit to be invoked.
struct Callback {
    run: Box<dyn Wake>,
}

impl Callback {
    #[verifier::type_invariant]
    spec fn fit(self) -> bool {
        self.run.callable()
    }
}

/// What invoking a waker does.
enum Wakeup {
    /// Nothing.
    Nothing,
    /// It notifies the notifier.
    Notify(Arc<Notifier>),
    /// It invokes the callback.
    Call(Arc<Callback>),
}

/// Whom a waker wakes.
pub enum Target {
    /// Nobody: invoking the waker does nothing.
    Nobody,
    /// The executor that parks at this notifier.
    Parked(Notifier),
    /// Whomever the callback that the waker wraps sees fit.
    Callback,
}

/// A cloneable, thread-safe handle by which a task is woken: it wraps a
/// callback, or notifies an executor's notifier, or does nothing.
pub struct Waker {
    wakeup: Wakeup,
}

impl View for Waker {
    type V = Target;

    closed spec fn view(&self) -> Target {
        match self.wakeup {
            Wakeup::Nothing => Target::Nobody,
            Wakeup::Notify(notifier) => Target::Parked(*notifier),
            Wakeup::Call(_) => Target::Callback,
        }
    }
}

impl Waker {
    /// What holds once the waker was invoked: what its callback promises of
    /// a call that has returned, where it wraps one.
    pub closed spec fn woken(&self) -> bool {
        match self.wakeup {
            Wakeup::Call(callback) => callback.run.done(),
            _ => true,
        }
    }

    /// Wraps `wake_fn`, which must be fit to be invoked: a callback that
    /// panics is a defect of whoever supplied it.
    pub fn new<F: Fn() + Send + Sync + ?Sized + 'static>(wake_fn: Arc<F>) -> (waker: Self)
        requires
            call_requires(&*wake_fn, ()),
        ensures
            waker@ == Target::Callback,
            waker.woken() <==> call_ensures(&*wake_fn, (), ()),
    {
        Waker { wakeup: Wakeup::Call(Arc::new(Callback { run: Box::new(wake_fn) })) }
    }

    /// A waker that notifies `notifier`.
    pub(crate) fn alarm(notifier: Arc<Notifier>) -> (waker: Self)
        ensures
            waker@ == Target::Parked(*notifier),
    {
        Waker { wakeup: Wakeup::Notify(notifier) }
    }

    /// Wakes the target once: invokes the callback, or notifies the
    /// notifier, or does nothing. Nothing is asked of the caller: a waker
    /// may be invoked from any thread, any number of times, before or after
    /// the task that it was made for has completed.
    pub fn wake(&self)
        ensures
            self.woken(),
    {
        match &self.wakeup {
            Wakeup::Nothing => {},
            Wakeup::Notify(notifier) => {
                notifier.notify();
            },
            Wakeup::Call(callback) => {
                proof {
                    use_type_invariant(&**callback);
                }
                callback.run.wake();
            },
        }
    }

    /// A waker that wakes nobody: invoking it does nothing.
    pub fn noop() -> (waker: Self)
        ensures
            waker@ == Target::Nobody,
    {
        Waker { wakeup: Wakeup::Nothing }
    }
}

impl Clone for Waker {
    /// A second handle to the same target.
    fn clone(&self) -> (copy: Self)
        ensures
            copy == *self,
    {
        match &self.wakeup {
            Wakeup::Nothing => Waker { wakeup: Wakeup::Nothing },
            Wakeup::Notify(notifier) => Waker { wakeup: Wakeup::Notify(share(notifier)) },
            Wakeup::Call(callback) => Waker { wakeup: Wakeup::Call(share(callback)) },
        }
    }
}

/// What a future is handed for the length of one poll.
pub struct Context {
    pub waker: Waker,
}

impl Context {
    /// A context that carries `waker`.
    pub fn new(waker: Waker) -> (ctx: Self)
        ensures
            ctx.waker == waker,
    {
        Context { waker }
    }

    /// The waker that the context carries.
    pub fn waker(&self) -> (waker: &Waker)
        ensures
            *waker == self.waker,
    {
        &self.waker
    }
}

/// What one poll may do to a promised bound on further `Pending` answers: a
/// promise, once made, is kept, and a `Pending` answer lowers the bound.
pub open spec fn bound_kept(before: Option<nat>, after: Option<nat>, pending: bool) -> bool {
    before matches Some(b) ==> (after matches Some(a) && (pending ==> a < b))
}

/// A unit of asynchronous work that is driven by polling.
///
/// A `Pending` answer means "poll me again later". A future that answers
/// `Pending` should first hand the context's waker to whatever will make it
/// ready; otherwise it is polled again only when something else wakes the
/// executor or the executor's park runs out.
///
/// A future can be sent to another thread, so that an executor with its
/// tasks can be.
pub trait SimpleFuture: Send {
    type Output;

    /// If the future promises one, a bound on how many more polls may
    /// answer `Pending`; `None` where it promises nothing, as it does unless
    /// an implementation says otherwise.
    open spec fn pending_bound(&self) -> Option<nat> {
        None
    }

    /// Polls once. A future that promised a bound keeps promising one, and
    /// each `Pending` answer uses the bound up.
    fn poll(&mut self, ctx: &mut Context) -> (state: State<Self::Output>)
        ensures
            bound_kept(old(self).pending_bound(), final(self).pending_bound(), state is Pending),
    ;
}

/// A boxed future is a future: it answers what the future in the box
/// answers.
impl<F: SimpleFuture + ?Sized> SimpleFuture for Box<F> {
    type Output = F::Output;

    open spec fn pending_bound(&self) -> Option<nat> {
        (**self).pending_bound()
    }

    fn poll(&mut self, ctx: &mut Context) -> (state: State<F::Output>) {
        (**self).poll(ctx)
    }
}

/// A future without output, in the form in which the executor stores it.
/// Every `SimpleFuture` whose output is `()` is one.
pub trait UnitFuture: Send {
    /// See [`SimpleFuture::pending_bound`].
    open spec fn unit_bound(&self) -> Option<nat> {
        None
    }

    /// See [`SimpleFuture::poll`].
    fn poll_unit(&mut self, ctx: &mut Context) -> (state: State<()>)
        ensures
            bound_kept(old(self).unit_bound(), final(self).unit_bound(), state is Pending),
    ;
}

impl<F: SimpleFuture<Output = ()>> UnitFuture for F {
    open spec fn unit_bound(&self) -> Option<nat> {
        self.pending_bound()
    }

    fn poll_unit(&mut self, ctx: &mut Context) -> (state: State<()>) {
        self.poll(ctx)
    }
}

/// An entry of the executor's queue: a boxed future, and a record of what
/// became of it. The record is kept where only this module writes it: the
/// number of futures that were spawned before this one, how often the task
/// was polled, and whether its latest poll answered `Ready`.
pub struct Task {
    pub future: Box<dyn UnitFuture>,
    ticket: Ghost<nat>,
    polls: Ghost<nat>,
    ready: Ghost<bool>,
}

impl Task {
    /// How many futures were spawned before the task's own.
    pub closed spec fn ticket(&self) -> nat {
        self.ticket@
    }

    /// How often the task was polled.
    pub closed spec fn polls(&self) -> nat {
        self.polls@
    }

    /// Whether the task was polled and its latest poll answered `Ready`.
    pub closed spec fn completed(&self) -> bool {
        self.ready@
    }

    /// The bound that the task's future promises, if any.
    pub closed spec fn pending_bound(&self) -> Option<nat> {
        self.future.unit_bound()
    }

    /// `after` is what one more poll makes of `self`: the same ticket, one poll
    /// more on the record, and a promised bound kept.
    pub open spec fn polled_once(&self, after: Task) -> bool {
        &&& after.ticket() == self.ticket()
        &&& after.polls() == self.polls() + 1
        &&& bound_kept(self.pending_bound(), after.pending_bound(), !after.completed())
    }

    /// A task for `future`, with ticket 0, that was never polled.
    pub fn new<F: SimpleFuture<Output = ()> + ?Sized + 'static>(future: Box<F>) -> (task: Self)
        ensures
            task.pending_bound() == future.pending_bound(),
            task.ticket() == 0,
            task.polls() == 0,
            !task.completed(),
    {
        Task::with_ticket(Box::new(future), Ghost(0))
    }

    /// A task for `future` that was spawned after `ticket` others and was
    /// never polled.
    pub(crate) fn with_ticket(future: Box<dyn UnitFuture>, ticket: Ghost<nat>) -> (task: Self)
        ensures
            task.pending_bound() == future.unit_bound(),
            task.ticket() == ticket@,
            task.polls() == 0,
            !task.completed(),
    {
        Task { future, ticket, polls: Ghost(0), ready: Ghost(false) }
    }

    /// Polls the task's future once, answers what the future answers and
    /// writes the poll and its answer on the task's record.
    pub fn poll(&mut self, ctx: &mut Context) -> (state: State<()>)
        ensures
            old(self).polled_once(*final(self)),
            final(self).completed() == (state is Ready),
    {
        let state = self.future.poll_unit(ctx);
        let ghost answered = state is Ready;
        self.polls = Ghost((self.polls@ + 1) as nat);
        self.ready = Ghost(answered);
        state
    }
}

} // verus!
