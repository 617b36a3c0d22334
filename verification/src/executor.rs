//! A single-threaded executor: a first-in, first-out queue of tasks that is
//! polled pass by pass, and a decision after each pass whether to finish, to
//! go on at once or to park until a waker fires.

use crate::notifier::Notifier;
use crate::sync::share;
use crate::task::Context;
use crate::task::SimpleFuture;
use crate::task::State;
use crate::task::Target;
use crate::task::Task;
use crate::task::Waker;
use std::collections::VecDeque;
use std::sync::Arc;
use vstd::prelude::*;

verus! {

broadcast use vstd::std_specs::vecdeque::group_vec_dequeue_axioms;

/// The longest that a parked executor sleeps before it polls its tasks
/// again, in milliseconds. It bounds the harm done by a task that answered
/// `Pending` and arranged for no wake.
pub const PARK_LIMIT_MS: u64 = 50;

/// What the executor does after a pass.
#[derive(Clone, Copy, Debug, PartialEq, Eq, Structural)]
pub enum Decision {
    /// No task is left: return.
    Finish,
    /// Tasks are left and at least one completed: poll again at once.
    Continue,
    /// Tasks are left and none completed: park until a wake.
    Park,
}

/// The decision after a pass that left `pending` tasks in the queue and in
/// which `completed` tasks answered `Ready`.
pub open spec fn decision(pending: nat, completed: nat) -> Decision {
    if pending == 0 {
        Decision::Finish
    } else if completed > 0 {
        Decision::Continue
    } else {
        Decision::Park
    }
}

/// The executor finishes only when no task is left, parks only after a
/// pass that completed nothing, and otherwise polls again at once.
pub proof fn lemma_decision_rules(pending: nat, completed: nat)
    ensures
        decision(pending, completed) is Finish <==> pending == 0,
        decision(pending, completed) is Park <==> pending > 0 && completed == 0,
        decision(pending, completed) is Continue <==> pending > 0 && completed > 0,
{
}

/// Decides what follows a pass. See [`decision`].
pub fn decide(pending: usize, completed: usize) -> (next: Decision)
    ensures
        next == decision(pending as nat, completed as nat),
{
    if pending == 0 {
        Decision::Finish
    } else if completed > 0 {
        Decision::Continue
    } else {
        Decision::Park
    }
}

/// The entries of `queue` whose poll did not answer `Ready`, in the order of
/// the queue. `ready[i]` says what the poll of `queue[i]` answered.
pub open spec fn survivors<A>(queue: Seq<A>, ready: Seq<bool>) -> Seq<A>
    decreases queue.len(),
{
    if queue.len() == 0 || ready.len() != queue.len() {
        Seq::empty()
    } else if ready.last() {
        survivors(queue.drop_last(), ready.drop_last())
    } else {
        survivors(queue.drop_last(), ready.drop_last()).push(queue.last())
    }
}

/// The entries of `queue` whose poll answered `Ready`, in the order of the
/// queue, which is the order in which they completed.
pub open spec fn finished<A>(queue: Seq<A>, ready: Seq<bool>) -> Seq<A>
    decreases queue.len(),
{
    if queue.len() == 0 || ready.len() != queue.len() {
        Seq::empty()
    } else if ready.last() {
        finished(queue.drop_last(), ready.drop_last()).push(queue.last())
    } else {
        finished(queue.drop_last(), ready.drop_last())
    }
}

/// A pass in which no poll answers `Ready` leaves the queue as it was.
pub proof fn lemma_pass_without_completion<A>(queue: Seq<A>, ready: Seq<bool>)
    requires
        ready.len() == queue.len(),
        forall|i: int| 0 <= i < ready.len() ==> !ready[i],
    ensures
        survivors(queue, ready) == queue,
        finished(queue, ready) == Seq::<A>::empty(),
    decreases queue.len(),
{
    if queue.len() > 0 {
        lemma_pass_without_completion(queue.drop_last(), ready.drop_last());
    }
}

/// A pass in which every poll answers `Ready` completes the tasks in the
/// order of the queue and leaves none.
pub proof fn lemma_pass_with_all_completing<A>(queue: Seq<A>, ready: Seq<bool>)
    requires
        ready.len() == queue.len(),
        forall|i: int| 0 <= i < ready.len() ==> ready[i],
    ensures
        survivors(queue, ready) == Seq::<A>::empty(),
        finished(queue, ready) == queue,
    decreases queue.len(),
{
    if queue.len() > 0 {
        lemma_pass_with_all_completing(queue.drop_last(), ready.drop_last());
    }
}

/// The tickets of `tasks`, in order.
pub open spec fn tickets_of(tasks: Seq<Task>) -> Seq<nat> {
    tasks.map_values(|task: Task| task.ticket())
}

/// `tickets` are those of tasks in the order in which they were spawned,
/// where `spawned` tasks were spawned in all: they grow along the sequence
/// and stay below `spawned`.
pub open spec fn in_spawn_order(tickets: Seq<nat>, spawned: nat) -> bool {
    &&& forall|i: int, j: int| 0 <= i < j < tickets.len() ==> tickets[i] < tickets[j]
    &&& forall|i: int| 0 <= i < tickets.len() ==> tickets[i] < spawned
}

/// Whatever the polls of a pass answer, a queue in spawn order stays in
/// spawn order, the tasks that complete in the pass complete in spawn
/// order, and every task either completes or stays.
pub proof fn lemma_pass_keeps_spawn_order(queue: Seq<nat>, ready: Seq<bool>, spawned: nat)
    requires
        ready.len() == queue.len(),
        in_spawn_order(queue, spawned),
    ensures
        in_spawn_order(survivors(queue, ready), spawned),
        in_spawn_order(finished(queue, ready), spawned),
        survivors(queue, ready).len() + finished(queue, ready).len() == queue.len(),
    decreases queue.len(),
{
    if queue.len() > 0 {
        let earlier = queue.drop_last();
        lemma_pass_keeps_spawn_order(earlier, ready.drop_last(), queue.last());
    }
}

/// Every task of `tasks` promises a bound on its `Pending` answers.
pub open spec fn all_bounded(tasks: Seq<Task>) -> bool {
    forall|i: int| 0 <= i < tasks.len() ==> (#[trigger] tasks[i]).pending_bound() is Some
}

/// A bound on the polls that `tasks` still take, where all of them are
/// bounded: for each task its `Pending` answers and the `Ready` one.
pub open spec fn polls_left(tasks: Seq<Task>) -> nat
    decreases tasks.len(),
{
    if tasks.len() == 0 {
        0
    } else {
        polls_left(tasks.drop_last()) + tasks.last().pending_bound().unwrap() + 1
    }
}

/// What the polls of a pass answered, read off the tasks as they were after
/// their poll.
pub open spec fn answers(polled: Seq<Task>) -> Seq<bool> {
    polled.map_values(|task: Task| task.completed())
}

/// `polled` are the tasks of `queue`, in the order of the queue, each after
/// one more poll.
pub open spec fn polls_queue(queue: Seq<Task>, polled: Seq<Task>) -> bool {
    &&& polled.len() == queue.len()
    &&& forall|i: int| 0 <= i < queue.len() ==> (#[trigger] queue[i]).polled_once(polled[i])
}

/// The tasks that a pass leaves in the queue: those whose poll answered
/// `Pending`, in the order in which they were polled.
pub open spec fn left_by(polled: Seq<Task>) -> Seq<Task> {
    survivors(polled, answers(polled))
}

/// The tasks that complete in a pass: those whose poll answered `Ready`, in
/// the order in which they were polled.
pub open spec fn completed_by(polled: Seq<Task>) -> Seq<Task> {
    finished(polled, answers(polled))
}

/// One pass as it happened.
pub struct Pass {
    /// The tasks that were polled, in the order of the polls, each as it
    /// was after its poll.
    pub polled: Seq<Task>,
    /// Whether the executor parked after the pass.
    pub parked: bool,
}

impl Pass {
    /// The executor parked after the pass if and only if the pass left
    /// tasks and completed none.
    pub open spec fn parks_rightly(self) -> bool {
        self.parked <==> decision(left_by(self.polled).len(), completed_by(self.polled).len())
            is Park
    }
}

/// The queue after the passes `passes` over the queue `start`.
pub open spec fn queue_after(start: Seq<Task>, passes: Seq<Pass>) -> Seq<Task> {
    if passes.len() == 0 {
        start
    } else {
        left_by(passes.last().polled)
    }
}

/// `passes` follow one another as the executor makes them, from the queue
/// `start` on: each pass polls, in order and once, every task that the
/// pass before it left; no pass but the first finds the queue empty; and
/// the executor parks after a pass exactly where that pass left tasks and
/// completed none.
pub open spec fn chained(start: Seq<Task>, passes: Seq<Pass>) -> bool
    decreases passes.len(),
{
    passes.len() == 0 || {
        let earlier = passes.drop_last();
        &&& chained(start, earlier)
        &&& polls_queue(queue_after(start, earlier), passes.last().polled)
        &&& passes.last().parks_rightly()
        &&& earlier.len() > 0 ==> queue_after(start, earlier).len() > 0
    }
}

/// The tasks that complete in `passes`, in the order in which they
/// complete, each as it was after its last poll.
pub open spec fn completions(passes: Seq<Pass>) -> Seq<Task>
    decreases passes.len(),
{
    if passes.len() == 0 {
        Seq::empty()
    } else {
        completions(passes.drop_last()) + completed_by(passes.last().polled)
    }
}

/// `passes` are a whole run over the queue `start`: at least one pass, the
/// passes chained, and no task left after the last.
pub open spec fn is_run(start: Seq<Task>, passes: Seq<Pass>) -> bool {
    &&& passes.len() > 0
    &&& chained(start, passes)
    &&& queue_after(start, passes).len() == 0
}

/// A pass keeps the tickets: the tasks after their polls have the tickets
/// of the queue, and the tasks that the pass leaves have the tickets that
/// the answers leave.
pub proof fn lemma_tickets_of_pass(queue: Seq<Task>, polled: Seq<Task>)
    requires
        polls_queue(queue, polled),
    ensures
        tickets_of(polled) == tickets_of(queue),
        tickets_of(left_by(polled)) == survivors(tickets_of(queue), answers(polled)),
        tickets_of(completed_by(polled)) == finished(tickets_of(queue), answers(polled)),
    decreases polled.len(),
{
    assert(tickets_of(polled) == tickets_of(queue));
    if polled.len() > 0 {
        lemma_tickets_of_pass(queue.drop_last(), polled.drop_last());
        assert(answers(polled).drop_last() == answers(polled.drop_last()));
        assert(tickets_of(queue).drop_last() == tickets_of(queue.drop_last()));
    }
}

/// A sequence without entries has no entries as a multiset.
proof fn lemma_nothing_to_count<A>(entries: Seq<A>)
    requires
        entries.len() == 0,
    ensures
        entries.to_multiset() == vstd::multiset::Multiset::<A>::empty(),
{
    broadcast use vstd::multiset::group_multiset_axioms;

    entries.to_multiset_ensures();
    assert(entries.to_multiset() =~= vstd::multiset::Multiset::<A>::empty());
}

/// A pass loses no task and doubles none: the entries that stay and those
/// that complete are together the entries of the queue.
pub proof fn lemma_pass_partitions<A>(queue: Seq<A>, ready: Seq<bool>)
    requires
        ready.len() == queue.len(),
    ensures
        survivors(queue, ready).to_multiset().add(finished(queue, ready).to_multiset())
            == queue.to_multiset(),
    decreases queue.len(),
{
    broadcast use vstd::multiset::group_multiset_axioms;

    if queue.len() == 0 {
        lemma_nothing_to_count(queue);
        lemma_nothing_to_count(survivors(queue, ready));
        lemma_nothing_to_count(finished(queue, ready));
        assert(survivors(queue, ready).to_multiset().add(finished(queue, ready).to_multiset())
            =~= queue.to_multiset());
    } else {
        let earlier = queue.drop_last();
        let stay = survivors(earlier, ready.drop_last());
        let done = finished(earlier, ready.drop_last());
        lemma_pass_partitions(earlier, ready.drop_last());
        assert(earlier.push(queue.last()) == queue);
        vstd::seq_lib::to_multiset_build(earlier, queue.last());
        if ready.last() {
            vstd::seq_lib::to_multiset_build(done, queue.last());
            assert(stay.to_multiset().add(done.to_multiset().insert(queue.last()))
                =~= stay.to_multiset().add(done.to_multiset()).insert(queue.last()));
        } else {
            vstd::seq_lib::to_multiset_build(stay, queue.last());
            assert(stay.to_multiset().insert(queue.last()).add(done.to_multiset())
                =~= stay.to_multiset().add(done.to_multiset()).insert(queue.last()));
        }
    }
}

/// The tasks that complete in a pass answered `Ready` at their latest poll.
pub proof fn lemma_completed_answered_ready(polled: Seq<Task>)
    ensures
        forall|i: int|
            0 <= i < completed_by(polled).len() ==> (#[trigger] completed_by(polled)[i]).completed(),
    decreases polled.len(),
{
    if polled.len() > 0 {
        let earlier = polled.drop_last();
        let done = completed_by(earlier);
        lemma_completed_answered_ready(earlier);
        assert(answers(polled).drop_last() == answers(earlier));
        if answers(polled).last() {
            assert(completed_by(polled) == done.push(polled.last()));
        } else {
            assert(completed_by(polled) == done);
        }
    }
}

/// Passes that are chained account for every task: each task of the queue
/// at the start is among the completions or still queued, once; and every
/// completion answered `Ready` at its latest poll.
pub proof fn lemma_passes_account_for_every_task(start: Seq<Task>, passes: Seq<Pass>)
    requires
        chained(start, passes),
    ensures
        tickets_of(completions(passes)).to_multiset().add(
            tickets_of(queue_after(start, passes)).to_multiset(),
        ) == tickets_of(start).to_multiset(),
        forall|i: int|
            0 <= i < completions(passes).len() ==> (#[trigger] completions(passes)[i]).completed(),
    decreases passes.len(),
{
    broadcast use vstd::multiset::group_multiset_axioms;

    if passes.len() == 0 {
        lemma_nothing_to_count(tickets_of(completions(passes)));
        assert(tickets_of(completions(passes)).to_multiset().add(tickets_of(start).to_multiset())
            =~= tickets_of(start).to_multiset());
    } else {
        let earlier = passes.drop_last();
        let queue = queue_after(start, earlier);
        let polled = passes.last().polled;
        lemma_passes_account_for_every_task(start, earlier);
        lemma_tickets_of_pass(queue, polled);
        lemma_pass_partitions(tickets_of(queue), answers(polled));
        lemma_completed_answered_ready(polled);
        let done = tickets_of(completions(earlier));
        let now = tickets_of(completed_by(polled));
        assert(tickets_of(completions(passes)) == done + now);
        vstd::seq_lib::lemma_multiset_commutative(done, now);
    }
}

/// Every task of `tasks` was polled `polls` times.
pub open spec fn all_polled(tasks: Seq<Task>, polls: nat) -> bool {
    forall|i: int| 0 <= i < tasks.len() ==> (#[trigger] tasks[i]).polls() == polls
}

/// In `passes`, a task answers `Ready` at its `polls`-th poll and `Pending`
/// at every other.
pub open spec fn ready_at(passes: Seq<Pass>, polls: nat) -> bool {
    forall|p: int, i: int|
        0 <= p < passes.len() && 0 <= i < passes[p].polled.len() ==> ((
        #[trigger] passes[p].polled[i]).completed() <==> passes[p].polled[i].polls() == polls)
}

/// The first passes of chained passes are chained.
proof fn lemma_chained_prefix(start: Seq<Task>, passes: Seq<Pass>, count: nat)
    requires
        chained(start, passes),
        count <= passes.len(),
    ensures
        chained(start, passes.subrange(0, count as int)),
    decreases passes.len(),
{
    if count < passes.len() {
        lemma_chained_prefix(start, passes.drop_last(), count);
        assert(passes.drop_last().subrange(0, count as int) == passes.subrange(0, count as int));
    } else {
        assert(passes.subrange(0, count as int) == passes);
    }
}

/// While tasks that each take `polls` polls have been polled less often,
/// every pass polls all of them in the order of the queue, completes none
/// and is followed by a park.
proof fn lemma_passes_before_the_last(
    start: Seq<Task>,
    passes: Seq<Pass>,
    polls: nat,
    count: nat,
)
    requires
        start.len() > 0,
        all_polled(start, 0),
        chained(start, passes),
        ready_at(passes, polls),
        count <= passes.len(),
        count < polls,
    ensures
        queue_after(start, passes.subrange(0, count as int)).len() == start.len(),
        tickets_of(queue_after(start, passes.subrange(0, count as int))) == tickets_of(start),
        all_polled(queue_after(start, passes.subrange(0, count as int)), count),
        completions(passes.subrange(0, count as int)) == Seq::<Task>::empty(),
        forall|p: int|
            0 <= p < count ==> tickets_of((#[trigger] passes[p]).polled) == tickets_of(start)
                && passes[p].parked && completed_by(passes[p].polled).len() == 0,
    decreases count,
{
    let made = passes.subrange(0, count as int);
    if count == 0 {
        assert(completions(made) == Seq::<Task>::empty());
    } else {
        let before = passes.subrange(0, count - 1);
        let pass = passes[count - 1];
        let queue = queue_after(start, before);
        lemma_passes_before_the_last(start, passes, polls, (count - 1) as nat);
        lemma_chained_prefix(start, passes, count);
        assert(made.drop_last() == before);
        assert(made.last() == pass);
        lemma_tickets_of_pass(queue, pass.polled);
        assert(all_polled(pass.polled, count)) by {
            assert forall|i: int| 0 <= i < pass.polled.len() implies (
            #[trigger] pass.polled[i]).polls() == count by {
                assert(queue[i].polled_once(pass.polled[i]));
            }
        }
        assert forall|i: int| 0 <= i < answers(pass.polled).len() implies !answers(
            pass.polled,
        )[i] by {
            assert(pass.polled[i].polls() == count);
        }
        lemma_pass_without_completion(pass.polled, answers(pass.polled));
        assert(completions(made) == completions(before) + completed_by(pass.polled));
    }
}

/// Tasks that each take the same number of polls and were never polled are
/// run in as many passes as they take polls. Every pass polls all of them in
/// the order of the queue; every pass but the last completes none and is
/// followed by a park; the last completes them in the order of the queue,
/// each at its `polls`-th poll.
pub proof fn lemma_equal_tasks_are_run_in_spawn_order(
    start: Seq<Task>,
    passes: Seq<Pass>,
    polls: nat,
)
    requires
        start.len() > 0,
        polls >= 1,
        all_polled(start, 0),
        is_run(start, passes),
        ready_at(passes, polls),
    ensures
        passes.len() == polls,
        forall|p: int|
            0 <= p < passes.len() ==> tickets_of((#[trigger] passes[p]).polled) == tickets_of(
                start,
            ),
        forall|p: int|
            0 <= p < passes.len() - 1 ==> (#[trigger] passes[p]).parked && completed_by(
                passes[p].polled,
            ).len() == 0,
        !passes.last().parked,
        tickets_of(completions(passes)) == tickets_of(start),
        all_polled(completions(passes), polls),
{
    if passes.len() < polls {
        lemma_passes_before_the_last(start, passes, polls, passes.len());
        assert(passes.subrange(0, passes.len() as int) == passes);
    }
    let count = (polls - 1) as nat;
    let before = passes.subrange(0, count as int);
    let made = passes.subrange(0, polls as int);
    let pass = passes[count as int];
    let queue = queue_after(start, before);
    lemma_passes_before_the_last(start, passes, polls, count);
    lemma_chained_prefix(start, passes, polls);
    assert(made.drop_last() == before);
    assert(made.last() == pass);
    lemma_tickets_of_pass(queue, pass.polled);
    assert(all_polled(pass.polled, polls)) by {
        assert forall|i: int| 0 <= i < pass.polled.len() implies (
        #[trigger] pass.polled[i]).polls() == polls by {
            assert(queue[i].polled_once(pass.polled[i]));
        }
    }
    assert forall|i: int| 0 <= i < answers(pass.polled).len() implies answers(pass.polled)[i] by {
        assert(pass.polled[i].polls() == polls);
    }
    lemma_pass_with_all_completing(pass.polled, answers(pass.polled));
    if passes.len() > polls {
        lemma_chained_prefix(start, passes, (polls + 1) as nat);
        let longer = passes.subrange(0, polls + 1 as int);
        assert(longer.drop_last() == made);
    }
    assert(made == passes);
    assert(completions(passes) == completions(before) + completed_by(pass.polled));
}

/// What one pass did.
pub struct PassReport {
    /// How many tasks answered `Ready` and were dropped.
    pub completed: usize,
    /// How many tasks answered `Pending` and are queued for the next pass.
    pub pending: usize,
    /// The tasks that were polled, in the order of the polls, each as it
    /// was after its poll.
    pub polled: Ghost<Seq<Task>>,
}

/// The executor: the queue of tasks, the notifier at which it parks, and
/// the record of the passes that it made.
pub struct Executor {
    queue: VecDeque<Task>,
    notifier: Arc<Notifier>,
    spawned: Ghost<nat>,
    history: Ghost<Seq<Pass>>,
}

impl Executor {
    /// The queued tasks, the next to be polled first.
    pub closed spec fn tasks(&self) -> Seq<Task> {
        self.queue@
    }

    /// The notifier at which the executor parks.
    pub closed spec fn notifier(&self) -> Notifier {
        *self.notifier
    }

    /// How many tasks were spawned so far.
    pub closed spec fn spawned(&self) -> nat {
        self.spawned@
    }

    /// The passes that the executor made so far, the first one first.
    pub closed spec fn history(&self) -> Seq<Pass> {
        self.history@
    }

    /// The passes that the executor made since it was as `before`.
    pub open spec fn made_since(&self, before: Executor) -> Seq<Pass> {
        self.history().skip(before.history().len() as int)
    }

    /// The tickets of the queued tasks, in the order of the queue.
    pub open spec fn tickets(&self) -> Seq<nat> {
        tickets_of(self.tasks())
    }

    /// The queue is in spawn order. See [`in_spawn_order`].
    pub open spec fn wf(&self) -> bool {
        in_spawn_order(self.tickets(), self.spawned())
    }

    /// An executor without tasks that made no pass.
    pub fn new() -> (executor: Self)
        ensures
            executor.wf(),
            executor.tasks() == Seq::<Task>::empty(),
            executor.spawned() == 0,
            executor.history() == Seq::<Pass>::empty(),
    {
        Executor {
            queue: VecDeque::new(),
            notifier: Arc::new(Notifier::new()),
            spawned: Ghost(0),
            history: Ghost(Seq::empty()),
        }
    }

    /// Queues `f` behind the tasks that are there, as a task that was never
    /// polled, and notifies the notifier, so that an executor about to park
    /// polls the new task first.
    pub fn spawn<F: SimpleFuture<Output = ()> + 'static>(&mut self, f: F)
        requires
            old(self).wf(),
        ensures
            final(self).wf(),
            final(self).spawned() == old(self).spawned() + 1,
            final(self).history() == old(self).history(),
            final(self).tasks().len() == old(self).tasks().len() + 1,
            final(self).tasks().drop_last() == old(self).tasks(),
            final(self).tasks().last().ticket() == old(self).spawned(),
            final(self).tasks().last().polls() == 0,
            !final(self).tasks().last().completed(),
            final(self).tasks().last().pending_bound() == f.pending_bound(),
            final(self).tickets() == old(self).tickets().push(old(self).spawned()),
    {
        let ghost ticket = self.spawned@;
        let task = Task::with_ticket(Box::new(f), Ghost(ticket));
        self.queue.push_back(task);
        self.spawned = Ghost((ticket + 1) as nat);
        self.notifier.notify();
        assert(self.tickets() == old(self).tickets().push(ticket));
    }

    /// Parks until a waker of this executor fires or a task is spawned, for
    /// [`PARK_LIMIT_MS`] at most, and uses the notification up. A
    /// notification that came before the call ends it at once.
    pub fn wait(&self) -> (result: Result<(), ()>)
        ensures
            result is Ok,
    {
        self.notifier.park(PARK_LIMIT_MS);
        Ok(())
    }

    /// A waker that notifies this executor's notifier.
    fn waker(&self) -> (waker: Waker)
        ensures
            waker@ == Target::Parked(self.notifier()),
    {
        Waker::alarm(share(&self.notifier))
    }

    /// One pass: polls every queued task once, in the order of the queue,
    /// each with a fresh waker of this executor. A task that answers `Ready`
    /// is dropped; one that answers `Pending` is queued for the next pass,
    /// behind the pending tasks polled before it. The pass is written into
    /// the history, as one after which the executor did not park. The
    /// report counts the answers; [`decide`] says what follows.
    pub fn run_pass(&mut self) -> (report: PassReport)
        requires
            old(self).wf(),
        ensures
            final(self).wf(),
            final(self).spawned() == old(self).spawned(),
            polls_queue(old(self).tasks(), report.polled@),
            final(self).tasks() == left_by(report.polled@),
            final(self).history() == old(self).history().push(
                (Pass { polled: report.polled@, parked: false }),
            ),
            report.pending == left_by(report.polled@).len(),
            report.completed == completed_by(report.polled@).len(),
            report.completed + report.pending == old(self).tasks().len(),
            all_bounded(old(self).tasks()) ==> all_bounded(final(self).tasks()),
            all_bounded(old(self).tasks()) ==> polls_left(final(self).tasks())
                + old(self).tasks().len() <= polls_left(old(self).tasks()),
    {
        let ghost before = self.tasks();
        let ghost mut polled: Seq<Task> = Seq::empty();
        let mut pending: VecDeque<Task> = VecDeque::new();
        let mut completed: usize = 0;
        assert(before.subrange(0, before.len() as int) == before);
        assert(self.queue.len() == before.len());
        while self.queue.len() > 0
            invariant
                before == old(self).tasks(),
                before.len() <= usize::MAX,
                self.spawned() == old(self).spawned(),
                self.history() == old(self).history(),
                polled.len() <= before.len(),
                self.queue@ == before.subrange(polled.len() as int, before.len() as int),
                polls_queue(before.subrange(0, polled.len() as int), polled),
                pending@ == left_by(polled),
                completed == completed_by(polled).len(),
                completed + pending@.len() == polled.len(),
                all_bounded(before) ==> all_bounded(pending@) && polls_left(pending@)
                    + polled.len() <= polls_left(before.subrange(0, polled.len() as int)),
            decreases self.queue.len(),
        {
            let ghost earlier = polled;
            let ghost waiting = pending@;
            let mut task = self.queue.pop_front().unwrap();
            let ghost unpolled = task;
            let mut ctx = Context::new(self.waker());
            let state = task.poll(&mut ctx);
            proof {
                polled = earlier.push(task);
                let count = earlier.len() as int;
                let shorter = before.subrange(0, count);
                let longer = before.subrange(0, count + 1);
                assert(longer.drop_last() == shorter);
                assert(longer.last() == unpolled);
                assert(polled.drop_last() == earlier);
                assert(answers(polled).drop_last() == answers(earlier));
            }
            match state {
                State::Ready(_) => {
                    completed = completed + 1;
                },
                State::Pending => {
                    pending.push_back(task);
                    proof {
                        assert(pending@.drop_last() == waiting);
                    }
                },
            }
        }
        self.queue = pending;
        proof {
            lemma_tickets_of_pass(before, polled);
            lemma_pass_keeps_spawn_order(tickets_of(before), answers(polled), self.spawned());
            self.history@ = self.history@.push(Pass { polled, parked: false });
        }
        PassReport { completed, pending: self.queue.len(), polled: Ghost(polled) }
    }

    /// Drives the queued tasks to completion: passes follow one another for
    /// as long as tasks are left, with a park after each pass in which no
    /// task completed. Returns when the queue is empty, and not before.
    ///
    /// The history grows by the passes of the run, at least one. They are
    /// chained from the queue as it was and the last of them leaves no
    /// task, so every task that was queued is among their completions,
    /// once, with a `Ready` answer as its latest. The run writes a park into
    /// the history where it parks, which is after the passes that left
    /// tasks and completed none.
    ///
    /// The tasks must each promise a bound on their `Pending` answers; every
    /// pass uses some of [`polls_left`] up, which is why the run ends. For
    /// tasks that promise nothing, call [`Executor::run_pass`],
    /// [`decide`] and [`Executor::wait`] in a loop of your own.
    pub fn run(&mut self)
        requires
            old(self).wf(),
            all_bounded(old(self).tasks()),
        ensures
            final(self).wf(),
            final(self).tasks().len() == 0,
            final(self).spawned() == old(self).spawned(),
            final(self).history() == old(self).history() + final(self).made_since(*old(self)),
            is_run(old(self).tasks(), final(self).made_since(*old(self))),
            old(self).tickets().to_multiset() == tickets_of(
                completions(final(self).made_since(*old(self))),
            ).to_multiset(),
            forall|i: int|
                0 <= i < completions(final(self).made_since(*old(self))).len() ==> (
                #[trigger] completions(final(self).made_since(*old(self)))[i]).completed(),
    {
        let ghost start = self.tasks();
        let ghost past = self.history();
        let ghost mut passes: Seq<Pass> = Seq::empty();
        loop
            invariant_except_break
                passes.len() > 0 ==> self.tasks().len() > 0,
            invariant
                self.wf(),
                all_bounded(self.tasks()),
                self.spawned() == old(self).spawned(),
                start == old(self).tasks(),
                past == old(self).history(),
                self.history() == past + passes,
                chained(start, passes),
                self.tasks() == queue_after(start, passes),
            ensures
                self.wf(),
                self.tasks().len() == 0,
                self.spawned() == old(self).spawned(),
                self.history() == past + passes,
                is_run(start, passes),
            decreases polls_left(self.tasks()),
        {
            let ghost earlier = passes;
            let report = self.run_pass();
            let ghost pass = Pass { polled: report.polled@, parked: false };
            match decide(report.pending, report.completed) {
                Decision::Finish => {
                    proof {
                        passes = earlier.push(pass);
                        assert(passes.drop_last() == earlier);
                        assert(self.history() == past + passes);
                    }
                    break ;
                },
                Decision::Continue => {
                    proof {
                        passes = earlier.push(pass);
                        assert(passes.drop_last() == earlier);
                        assert(self.history() == past + passes);
                    }
                },
                Decision::Park => {
                    let _ = self.wait();
                    proof {
                        let parked = Pass { polled: report.polled@, parked: true };
                        passes = earlier.push(parked);
                        assert(passes.drop_last() == earlier);
                        self.history@ = past + passes;
                    }
                },
            }
        }
        proof {
            assert((past + passes).skip(past.len() as int) == passes);
            lemma_passes_account_for_every_task(start, passes);
            lemma_nothing_to_count(tickets_of(queue_after(start, passes)));
            assert(tickets_of(completions(passes)).to_multiset().add(
                vstd::multiset::Multiset::<nat>::empty(),
            ) =~= tickets_of(completions(passes)).to_multiset());
        }
    }
}

} // verus!
