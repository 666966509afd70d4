//! The activity queue's bookkeeping: operational counters, round-robin
//! dispatch over the worker channels, and shutdown.
use vstd::arithmetic::div_mod::{
    lemma_fundamental_div_mod, lemma_mod_bound, lemma_mod_multiples_vanish, lemma_mod_self_0,
    lemma_small_mod,
};
use vstd::prelude::*;

use crate::error::Error;

verus! {

/// The four operational counters of a queue.
#[derive(Debug, Clone, Copy, PartialEq, Eq, Structural)]
pub struct Stats {
    /// Tasks accepted by the queue and not yet picked up by a worker.
    pub pending: usize,
    /// Tasks a worker is delivering, including between retries.
    pub running: usize,
    /// Tasks that exhausted their retries since the last hourly reset.
    pub dead_last_hour: usize,
    /// Tasks that ended as delivered or refused by the peer since the last
    /// hourly reset.
    pub completed_last_hour: usize,
}

/// The counters as natural numbers.
pub ghost struct StatsModel {
    pub pending: nat,
    pub running: nat,
    pub dead: nat,
    pub completed: nat,
}

impl View for Stats {
    type V = StatsModel;

    open spec fn view(&self) -> StatsModel {
        StatsModel {
            pending: self.pending as nat,
            running: self.running as nat,
            dead: self.dead_last_hour as nat,
            completed: self.completed_last_hour as nat,
        }
    }
}

/// The abstract state of a queue.
pub ghost struct QueueModel {
    pub worker_count: nat,
    /// The round-robin cursor, a machine word that wraps.
    pub cursor: nat,
    pub open: bool,
    /// For each worker, whether it is delivering a task.
    pub busy: Seq<bool>,
    pub stats: StatsModel,
}

/// What happens to a queue.
pub ghost enum QueueEvent {
    /// A task is handed to the queue.
    Submit,
    /// The worker numbered so takes a task from its channel.
    Start(nat),
    /// The worker numbered so is done with its task; `true` when the task
    /// counts as completed.
    Finish(nat, bool),
    /// The hourly reset of the last-hour counters.
    ResetHour,
    /// The worker channels are closed.
    Close,
}

pub open spec fn word_modulus() -> nat {
    usize::MAX as nat + 1
}

/// The channel a submission goes to when the cursor reads `cursor`.
pub open spec fn channel_for(cursor: nat, worker_count: nat) -> nat {
    cursor % worker_count
}

/// The queue after one event.
pub open spec fn apply(q: QueueModel, e: QueueEvent) -> QueueModel {
    match e {
        QueueEvent::Submit => if q.open {
            QueueModel {
                cursor: (q.cursor + 1) % word_modulus(),
                stats: StatsModel { pending: q.stats.pending + 1, ..q.stats },
                ..q
            }
        } else {
            q
        },
        QueueEvent::Start(w) => QueueModel {
            busy: q.busy.update(w as int, true),
            stats: StatsModel {
                pending: (q.stats.pending - 1) as nat,
                running: q.stats.running + 1,
                ..q.stats
            },
            ..q
        },
        QueueEvent::Finish(w, completed) => QueueModel {
            busy: q.busy.update(w as int, false),
            stats: StatsModel {
                running: (q.stats.running - 1) as nat,
                dead: if completed { q.stats.dead } else { q.stats.dead + 1 },
                completed: if completed { q.stats.completed + 1 } else { q.stats.completed },
                ..q.stats
            },
            ..q
        },
        QueueEvent::ResetHour => QueueModel {
            stats: StatsModel { dead: 0, completed: 0, ..q.stats },
            ..q
        },
        QueueEvent::Close => QueueModel { open: false, ..q },
    }
}

/// Whether an event can happen in a state: a worker of the queue takes a
/// task only while one is pending and it is idle itself, and only finishes
/// a task while it runs one.
pub open spec fn enabled(q: QueueModel, e: QueueEvent) -> bool {
    match e {
        QueueEvent::Start(w) => q.stats.pending > 0 && w < q.busy.len() && !q.busy[w as int],
        QueueEvent::Finish(w, _) => w < q.busy.len() && q.busy[w as int],
        _ => true,
    }
}

/// How many workers are busy.
pub open spec fn busy_count(busy: Seq<bool>) -> nat
    decreases busy.len(),
{
    if busy.len() == 0 {
        0
    } else {
        busy_count(busy.drop_last()) + if busy.last() { 1nat } else { 0nat }
    }
}

proof fn lemma_busy_count_bound(busy: Seq<bool>)
    ensures
        busy_count(busy) <= busy.len(),
    decreases busy.len(),
{
    if busy.len() > 0 {
        lemma_busy_count_bound(busy.drop_last());
    }
}

proof fn lemma_busy_count_idle(n: nat)
    ensures
        busy_count(Seq::new(n, |i: int| false)) == 0,
    decreases n,
{
    if n > 0 {
        assert(Seq::new(n, |i: int| false).drop_last() =~= Seq::new((n - 1) as nat, |i: int| false));
        lemma_busy_count_idle((n - 1) as nat);
    }
}

proof fn lemma_busy_count_update(busy: Seq<bool>, w: int, v: bool)
    requires
        0 <= w < busy.len(),
    ensures
        busy_count(busy.update(w, v)) + (if busy[w] { 1nat } else { 0nat }) == busy_count(busy)
            + (if v { 1nat } else { 0nat }),
    decreases busy.len(),
{
    let u = busy.update(w, v);
    if w == busy.len() - 1 {
        assert(u.drop_last() =~= busy.drop_last());
    } else {
        assert(u.drop_last() =~= busy.drop_last().update(w, v));
        lemma_busy_count_update(busy.drop_last(), w, v);
    }
}

/// A fresh queue with `worker_count` workers.
pub open spec fn initial(worker_count: nat) -> QueueModel {
    QueueModel {
        worker_count,
        cursor: 0,
        open: true,
        busy: Seq::new(worker_count, |i: int| false),
        stats: StatsModel { pending: 0, running: 0, dead: 0, completed: 0 },
    }
}

/// The state after a run of events.
pub open spec fn run(q: QueueModel, events: Seq<QueueEvent>) -> QueueModel
    decreases events.len(),
{
    if events.len() == 0 {
        q
    } else {
        apply(run(q, events.drop_last()), events.last())
    }
}

/// Every event of the run is enabled where it happens.
pub open spec fn valid_run(q: QueueModel, events: Seq<QueueEvent>) -> bool
    decreases events.len(),
{
    events.len() == 0 || (valid_run(q, events.drop_last()) && enabled(
        run(q, events.drop_last()),
        events.last(),
    ))
}

/// How many submissions of the run the queue accepted.
pub open spec fn accepted(q: QueueModel, events: Seq<QueueEvent>) -> nat
    decreases events.len(),
{
    if events.len() == 0 {
        0
    } else {
        let before = accepted(q, events.drop_last());
        if events.last() == QueueEvent::Submit && run(q, events.drop_last()).open {
            before + 1
        } else {
            before
        }
    }
}

/// `count` submissions in a row.
pub open spec fn submissions(count: nat) -> Seq<QueueEvent> {
    Seq::new(count, |i: int| QueueEvent::Submit)
}

/// Every accepted task is pending, running, completed or dead: over a run
/// from a fresh queue with no hourly reset in it, the four counters add up
/// to the number of accepted submissions. The running tasks are those of
/// the busy workers, one each, so no more tasks run than there are
/// workers. So once the workers have drained their channels, completed
/// and dead tasks together are exactly the accepted ones.
pub proof fn lemma_accounting(worker_count: nat, events: Seq<QueueEvent>)
    requires
        worker_count >= 1,
        valid_run(initial(worker_count), events),
        forall|i: int| 0 <= i < events.len() ==> events[i] != QueueEvent::ResetHour,
    ensures
        ({
            let q = run(initial(worker_count), events);
            &&& q.stats.pending + q.stats.running + q.stats.completed + q.stats.dead
                == accepted(initial(worker_count), events)
            &&& q.stats.running <= worker_count
            &&& q.stats.running == busy_count(q.busy)
            &&& q.busy.len() == worker_count
            &&& q.worker_count == worker_count
            &&& (q.stats.pending == 0 && q.stats.running == 0) ==> q.stats.completed
                + q.stats.dead == accepted(initial(worker_count), events)
        }),
    decreases events.len(),
{
    if events.len() > 0 {
        let prev = events.drop_last();
        assert forall|i: int| 0 <= i < prev.len() implies prev[i] != QueueEvent::ResetHour by {
            assert(prev[i] == events[i]);
        }
        lemma_accounting(worker_count, prev);
        let q = run(initial(worker_count), prev);
        match events.last() {
            QueueEvent::Start(w) => lemma_busy_count_update(q.busy, w as int, true),
            QueueEvent::Finish(w, _) => lemma_busy_count_update(q.busy, w as int, false),
            _ => {},
        }
        lemma_busy_count_bound(run(initial(worker_count), events).busy);
    } else {
        lemma_busy_count_idle(worker_count);
    }
}

/// The last-hour counters never go down but at the hourly reset, which
/// sets both to zero; no event changes the worker count.
pub proof fn lemma_last_hour_counters(q: QueueModel, e: QueueEvent)
    ensures
        e != QueueEvent::ResetHour ==> apply(q, e).stats.dead >= q.stats.dead
            && apply(q, e).stats.completed >= q.stats.completed,
        e == QueueEvent::ResetHour ==> apply(q, e).stats.dead == 0 && apply(q, e).stats.completed
            == 0,
        apply(q, e).worker_count == q.worker_count,
{
}

/// After `count` accepted submissions without a wrap, the cursor has moved
/// on by `count` and the queue is still open.
pub proof fn lemma_cursor_after_submissions(q: QueueModel, count: nat)
    requires
        q.open,
        q.cursor + count < word_modulus(),
    ensures
        run(q, submissions(count)).cursor == q.cursor + count,
        run(q, submissions(count)).open,
        run(q, submissions(count)).worker_count == q.worker_count,
    decreases count,
{
    if count > 0 {
        assert(submissions(count).drop_last() =~= submissions((count - 1) as nat));
        lemma_cursor_after_submissions(q, (count - 1) as nat);
        lemma_small_mod(q.cursor + count, word_modulus());
    }
}

/// The channel that the submission numbered `i` (from zero) of a row of
/// submissions goes to.
pub open spec fn nth_channel(q: QueueModel, i: nat) -> nat {
    channel_for(run(q, submissions(i)).cursor, q.worker_count)
}

/// Among the first `worker_count` submissions of a row, one goes to
/// channel `w`.
pub open spec fn receives_one(q: QueueModel, w: nat) -> bool {
    exists|i: nat| i < q.worker_count && nth_channel(q, i) == w
}

/// Round-robin dispatch: `worker_count` submissions in a row to an open
/// queue go one to each worker channel, as long as the cursor does not wrap
/// among them. With a single worker every submission goes to its channel.
pub proof fn lemma_round_robin(q: QueueModel)
    requires
        q.worker_count >= 1,
        q.open,
        q.cursor + q.worker_count <= word_modulus(),
    ensures
        forall|i: nat, j: nat|
            i < j < q.worker_count ==> #[trigger] nth_channel(q, i) != #[trigger] nth_channel(q, j),
        forall|w: nat| w < q.worker_count ==> #[trigger] receives_one(q, w),
        q.worker_count == 1 ==> forall|i: nat| #[trigger] nth_channel(q, i) == 0,
{
    let n = q.worker_count;
    let c = q.cursor;
    assert forall|i: nat, j: nat| i < j < n implies #[trigger] nth_channel(q, i)
        != #[trigger] nth_channel(q, j) by {
        lemma_cursor_after_submissions(q, i);
        lemma_cursor_after_submissions(q, j);
        lemma_distinct_residues(c, i, j, n);
    }
    assert forall|w: nat| w < n implies #[trigger] receives_one(q, w) by {
        let i = ((w + n - c % n) % (n as int)) as nat;
        lemma_hit_residue(c, w, n);
        lemma_cursor_after_submissions(q, i);
        assert(nth_channel(q, i) == w);
    }
    assert forall|i: nat| n == 1 implies #[trigger] nth_channel(q, i) == 0 by {
        lemma_mod_bound(run(q, submissions(i)).cursor as int, 1);
    }
}

proof fn lemma_distinct_residues(c: nat, i: nat, j: nat, n: nat)
    requires
        i < j < n,
    ensures
        (c + i) % n != (c + j) % n,
{
    lemma_fundamental_div_mod((c + i) as int, n as int);
    lemma_fundamental_div_mod((c + j) as int, n as int);
    let qi = (c + i) / n;
    let qj = (c + j) / n;
    if (c + i) % n == (c + j) % n {
        assert(n * (qj - qi) == j - i) by (nonlinear_arith)
            requires
                c + i == n * qi + (c + i) % n,
                c + j == n * qj + (c + j) % n,
                (c + i) % n == (c + j) % n,
        ;
        if qj - qi <= 0 {
            assert(n * (qj - qi) <= 0) by (nonlinear_arith)
                requires
                    qj - qi <= 0,
                    n > 0,
            ;
        } else {
            assert(n * (qj - qi) >= n) by (nonlinear_arith)
                requires
                    qj - qi >= 1,
                    n > 0,
            ;
        }
    }
}

proof fn lemma_hit_residue(c: nat, w: nat, n: nat)
    requires
        w < n,
    ensures
        ((w + n - c % n) % (n as int)) < n,
        (c + ((w + n - c % n) % (n as int)) as nat) % n == w,
{
    let r = c % n;
    let k = (w + n - r) % (n as int);
    lemma_fundamental_div_mod(c as int, n as int);
    lemma_fundamental_div_mod(w + n - r, n as int);
    lemma_mod_bound(c as int, n as int);
    lemma_mod_bound(w + n - r, n as int);
    // c + k == n * (c / n) + r + (w + n - r) - n * ((w + n - r) / n)
    //       == w + n * (c / n + 1 - (w + n - r) / n)
    let m = c / n + 1 - (w + n - r) / (n as int);
    assert(c + k == w + n * m) by (nonlinear_arith)
        requires
            c == n * (c / n) + r,
            w + n - r == n * ((w + n - r) / (n as int)) + k,
            m == c / n + 1 - (w + n - r) / (n as int),
    ;
    lemma_mod_multiples_vanish(m, w as int, n as int);
    lemma_small_mod(w, n);
}

/// The bookkeeping state of an activity queue with a fixed number of workers.
pub struct ActivityQueue {
    worker_count: usize,
    last_sender_idx: usize,
    open: bool,
    busy: Vec<bool>,
    stats: Stats,
}

impl View for ActivityQueue {
    type V = QueueModel;

    closed spec fn view(&self) -> QueueModel {
        QueueModel {
            worker_count: self.worker_count as nat,
            cursor: self.last_sender_idx as nat,
            open: self.open,
            busy: self.busy@,
            stats: self.stats@,
        }
    }
}

impl ActivityQueue {
    /// At least one worker; one busy flag per worker; the running tasks are
    /// those of the busy workers, so never more than there are workers.
    pub open spec fn wf(&self) -> bool {
        &&& self@.worker_count >= 1
        &&& self@.busy.len() == self@.worker_count
        &&& self@.stats.running == busy_count(self@.busy)
        &&& self@.stats.running <= self@.worker_count
    }

    /// A queue for `worker_count` workers, open, every worker idle, with
    /// every counter at zero.
    pub fn new(worker_count: usize) -> (r: ActivityQueue)
        requires
            worker_count >= 1,
        ensures
            r.wf(),
            r@ == initial(worker_count as nat),
    {
        let mut busy: Vec<bool> = Vec::new();
        let mut i: usize = 0;
        while i < worker_count
            invariant
                i <= worker_count,
                busy@ == Seq::new(i as nat, |j: int| false),
            decreases worker_count - i,
        {
            busy.push(false);
            i = i + 1;
            proof {
                assert(busy@ =~= Seq::new(i as nat, |j: int| false));
            }
        }
        proof {
            lemma_busy_count_idle(worker_count as nat);
        }
        ActivityQueue {
            worker_count,
            last_sender_idx: 0,
            open: true,
            busy,
            stats: Stats { pending: 0, running: 0, dead_last_hour: 0, completed_last_hour: 0 },
        }
    }

    pub fn worker_count(&self) -> (r: usize)
        ensures
            r as nat == self@.worker_count,
    {
        self.worker_count
    }

    pub fn is_open(&self) -> (r: bool)
        ensures
            r == self@.open,
    {
        self.open
    }

    /// Whether the worker numbered `worker` is delivering a task.
    pub fn is_busy(&self, worker: usize) -> (r: bool)
        requires
            worker < self@.busy.len(),
        ensures
            r == self@.busy[worker as int],
    {
        self.busy[worker]
    }

    /// The current counters.
    pub fn get_stats(&self) -> (r: &Stats)
        ensures
            r@ == self@.stats,
    {
        &self.stats
    }

    /// Accepts one task: counts it as pending and returns the index of the
    /// worker channel it goes to, the cursor modulo the worker count, then
    /// moves the cursor on (wrapping). A closed queue refuses the task and
    /// stays as it was.
    pub fn queue(&mut self) -> (r: Result<usize, Error>)
        requires
            old(self).wf(),
            old(self)@.open ==> old(self)@.stats.pending < usize::MAX,
        ensures
            final(self).wf(),
            final(self)@ == apply(old(self)@, QueueEvent::Submit),
            old(self)@.open ==> r == Ok::<usize, Error>(
                channel_for(old(self)@.cursor, old(self)@.worker_count) as usize,
            ),
            !old(self)@.open ==> r == Err::<usize, Error>(Error::QueueClosed),
    {
        if !self.open {
            return Err(Error::QueueClosed);
        }
        let idx = self.last_sender_idx % self.worker_count;
        proof {
            let c = self.last_sender_idx as nat;
            if c < usize::MAX {
                lemma_small_mod(c + 1, word_modulus());
            } else {
                lemma_mod_self_0(word_modulus() as int);
            }
        }
        self.last_sender_idx = if self.last_sender_idx == usize::MAX {
            0
        } else {
            self.last_sender_idx + 1
        };
        self.stats.pending = self.stats.pending + 1;
        Ok(idx)
    }

    /// The idle worker numbered `worker` takes a task from its channel: one
    /// fewer pending, one more running, and the worker is busy.
    pub fn start_task(&mut self, worker: usize)
        requires
            old(self).wf(),
            enabled(old(self)@, QueueEvent::Start(worker as nat)),
        ensures
            final(self).wf(),
            final(self)@ == apply(old(self)@, QueueEvent::Start(worker as nat)),
    {
        proof {
            lemma_busy_count_update(self.busy@, worker as int, true);
            lemma_busy_count_bound(self.busy@.update(worker as int, true));
        }
        self.busy.set(worker, true);
        self.stats.pending = self.stats.pending - 1;
        self.stats.running = self.stats.running + 1;
    }

    /// The busy worker numbered `worker` is done with its task: it is idle
    /// again, one fewer task runs, and one more is completed when
    /// `completed` holds, one more dead otherwise.
    pub fn finish_task(&mut self, worker: usize, completed: bool)
        requires
            old(self).wf(),
            enabled(old(self)@, QueueEvent::Finish(worker as nat, completed)),
            completed ==> old(self)@.stats.completed < usize::MAX,
            !completed ==> old(self)@.stats.dead < usize::MAX,
        ensures
            final(self).wf(),
            final(self)@ == apply(old(self)@, QueueEvent::Finish(worker as nat, completed)),
    {
        proof {
            lemma_busy_count_update(self.busy@, worker as int, false);
        }
        self.busy.set(worker, false);
        self.stats.running = self.stats.running - 1;
        if completed {
            self.stats.completed_last_hour = self.stats.completed_last_hour + 1;
        } else {
            self.stats.dead_last_hour = self.stats.dead_last_hour + 1;
        }
    }

    /// The hourly reset: the last-hour counters go back to zero.
    pub fn reset_hour(&mut self)
        requires
            old(self).wf(),
        ensures
            final(self).wf(),
            final(self)@ == apply(old(self)@, QueueEvent::ResetHour),
    {
        self.stats.dead_last_hour = 0;
        self.stats.completed_last_hour = 0;
    }

    /// Closes the worker channels: later submissions are refused.
    pub fn close(&mut self)
        requires
            old(self).wf(),
        ensures
            final(self).wf(),
            final(self)@ == apply(old(self)@, QueueEvent::Close),
    {
        self.open = false;
    }

    /// Ends a closed queue whose workers have drained their channels and
    /// finished every task, and hands back its counters.
    pub fn shutdown(self) -> (r: Stats)
        requires
            !self@.open,
            self@.stats.pending == 0,
            self@.stats.running == 0,
        ensures
            r.pending == 0,
            r.running == 0,
            r@ == self@.stats,
    {
        self.stats
    }
}

} // verus!
