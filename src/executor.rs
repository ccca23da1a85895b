//! The decisions of a single-threaded cooperative executor: which task ids sit
//! in the ready queue, which tasks are complete, and what a wake does.
//!
//! The run loop itself (blocking on the thread notification, polling futures,
//! building wakers) drives this state from outside: it calls [`ExecutorState::wake`]
//! from a waker and raises the notification when told to, and it asks
//! [`ExecutorState::next_task`] which task to poll next.

use vstd::prelude::*;

verus! {

/// The largest number of tasks that one run can hold.
pub const MAX_TASKS: usize = 16;

/// Slots of the ready queue's ring buffer; one slot always stays free.
pub const QUEUE_SLOTS: usize = 17;

/// heapless's single-producer ring buffer, held opaque: what it contains is
/// `queue_items`.
#[verifier::external_type_specification]
#[verifier::external_body]
#[verifier::reject_recursive_types(T)]
pub struct ExQueue<T, const N: usize>(heapless::spsc::Queue<T, N>);

/// The ids held by a ready queue, front first.
pub uninterp spec fn queue_items(q: heapless::spsc::Queue<usize, QUEUE_SLOTS>) -> Seq<usize>;

/// Relies on heapless::spsc::Queue::new: the queue starts empty.
#[verifier::external_body]
fn queue_new() -> (q: heapless::spsc::Queue<usize, QUEUE_SLOTS>)
    ensures
        queue_items(q) == Seq::<usize>::empty(),
{
    heapless::spsc::Queue::new()
}

/// Relies on heapless::spsc::Queue::enqueue: with fewer than `QUEUE_SLOTS - 1`
/// ids held, the id goes to the back; otherwise it is handed back and the
/// queue is unchanged.
#[verifier::external_body]
fn queue_enqueue(q: &mut heapless::spsc::Queue<usize, QUEUE_SLOTS>, id: usize) -> (r: Result<(), usize>)
    ensures
        queue_items(*old(q)).len() < QUEUE_SLOTS - 1 ==> r is Ok && queue_items(*final(q))
            == queue_items(*old(q)).push(id),
        queue_items(*old(q)).len() >= QUEUE_SLOTS - 1 ==> (r matches Err(v) && v == id) && queue_items(
            *final(q),
        ) == queue_items(*old(q)),
{
    q.enqueue(id)
}

/// Relies on heapless::spsc::Queue::dequeue: removes and returns the front id,
/// or returns `None` on an empty queue, which stays unchanged.
#[verifier::external_body]
fn queue_dequeue(q: &mut heapless::spsc::Queue<usize, QUEUE_SLOTS>) -> (r: Option<usize>)
    ensures
        queue_items(*old(q)).len() > 0 ==> r == Some(queue_items(*old(q))[0]) && queue_items(
            *final(q),
        ) == queue_items(*old(q)).drop_first(),
        queue_items(*old(q)).len() == 0 ==> r is None && queue_items(*final(q)) == queue_items(
            *old(q),
        ),
{
    q.dequeue()
}

/// The abstract state of one executor run.
pub struct RunView {
    /// Whether a run is in progress, so that wakes reach it.
    pub running: bool,
    /// The ready queue, front first.
    pub queue: Seq<usize>,
    /// Per task: whether its id is in the ready queue.
    pub queued: Seq<bool>,
    /// Per task: whether it has reported completion.
    pub completed: Seq<bool>,
    /// How many tasks have not completed yet.
    pub pending: nat,
}

/// How many entries of `s` equal `b`.
pub open spec fn count_of(s: Seq<bool>, b: bool) -> nat
    decreases s.len(),
{
    if s.len() == 0 {
        0
    } else {
        count_of(s.drop_last(), b) + if s.last() == b {
            1nat
        } else {
            0nat
        }
    }
}

/// No id occurs twice in `q`.
pub open spec fn distinct(q: Seq<usize>) -> bool {
    forall|i: int, j: int| 0 <= i < j < q.len() ==> q[i] != q[j]
}

/// The invariant of the executor's state: the flags and the ready queue agree,
/// no id is queued twice, and the queue never holds more than one entry per
/// task.
pub open spec fn run_wf(s: RunView) -> bool {
    &&& s.queued.len() == s.completed.len()
    &&& s.queued.len() <= MAX_TASKS
    &&& distinct(s.queue)
    &&& forall|i: int| 0 <= i < s.queue.len() ==> s.queue[i] < s.queued.len()
    &&& forall|id: int| 0 <= id < s.queued.len() ==> (s.queued[id] <==> s.queue.contains(id as usize))
    &&& s.queue.len() == count_of(s.queued, true)
    &&& s.pending == count_of(s.completed, false)
}

/// The state at the start of a run of `n` tasks: every id queued in order,
/// none complete.
pub open spec fn start_spec(n: nat) -> RunView {
    RunView {
        running: true,
        queue: Seq::new(n, |i: int| i as usize),
        queued: Seq::new(n, |i: int| true),
        completed: Seq::new(n, |i: int| false),
        pending: n,
    }
}

/// A wake of task `id`: it joins the queue only if a run is in progress, the
/// id belongs to it, and the task is neither queued already nor complete. The
/// flag says whether the run loop must be notified.
pub open spec fn wake_spec(s: RunView, id: int) -> (RunView, bool) {
    if s.running && 0 <= id < s.queued.len() && !s.queued[id] && !s.completed[id] {
        (RunView { queue: s.queue.push(id as usize), queued: s.queued.update(id, true), ..s }, true)
    } else {
        (s, false)
    }
}

/// The next task to poll: entries are taken from the front of the queue,
/// clearing their flags, and complete tasks among them are passed over.
pub open spec fn next_spec(s: RunView) -> (RunView, Option<usize>)
    decreases s.queue.len(),
{
    if s.queue.len() == 0 {
        (s, None)
    } else {
        let id = s.queue[0];
        let t = RunView {
            queue: s.queue.drop_first(),
            queued: s.queued.update(id as int, false),
            ..s
        };
        if s.completed[id as int] {
            next_spec(t)
        } else {
            (t, Some(id))
        }
    }
}

/// Task `id` reported completion.
pub open spec fn complete_spec(s: RunView, id: int) -> RunView {
    RunView { completed: s.completed.update(id, true), pending: (s.pending - 1) as nat, ..s }
}

/// The run has ended: wakes reach it no more.
pub open spec fn teardown_spec(s: RunView) -> RunView {
    RunView { running: false, ..s }
}

proof fn lemma_count_update(s: Seq<bool>, i: int, v: bool, b: bool)
    requires
        0 <= i < s.len(),
    ensures
        count_of(s.update(i, v), b) + (if s[i] == b {
            1int
        } else {
            0int
        }) == count_of(s, b) + (if v == b {
            1int
        } else {
            0int
        }),
    decreases s.len(),
{
    if i == s.len() - 1 {
        assert(s.update(i, v).drop_last() =~= s.drop_last());
    } else {
        lemma_count_update(s.drop_last(), i, v, b);
        assert(s.update(i, v).drop_last() =~= s.drop_last().update(i, v));
    }
}

proof fn lemma_count_bound(s: Seq<bool>, i: int, b: bool)
    requires
        0 <= i < s.len(),
        s[i] != b,
    ensures
        count_of(s, b) < s.len(),
    decreases s.len(),
{
    lemma_count_le(s, b);
    if i < s.len() - 1 {
        lemma_count_bound(s.drop_last(), i, b);
    } else {
        lemma_count_le(s.drop_last(), b);
    }
}

proof fn lemma_count_le(s: Seq<bool>, b: bool)
    ensures
        count_of(s, b) <= s.len(),
    decreases s.len(),
{
    if s.len() > 0 {
        lemma_count_le(s.drop_last(), b);
    }
}

proof fn lemma_count_zero(s: Seq<bool>, b: bool)
    ensures
        count_of(s, b) == 0 <==> forall|i: int| 0 <= i < s.len() ==> s[i] != b,
    decreases s.len(),
{
    if s.len() > 0 {
        lemma_count_zero(s.drop_last(), b);
        if count_of(s, b) == 0 {
            assert forall|i: int| 0 <= i < s.len() implies s[i] != b by {
                if i < s.len() - 1 {
                    assert(s[i] == s.drop_last()[i]);
                }
            }
        }
        if forall|i: int| 0 <= i < s.len() ==> s[i] != b {
            assert forall|i: int| 0 <= i < s.drop_last().len() implies s.drop_last()[i] != b by {
                assert(s[i] == s.drop_last()[i]);
            }
        }
    }
}

proof fn lemma_count_const(n: nat, v: bool, b: bool)
    ensures
        count_of(Seq::new(n, |i: int| v), b) == if v == b {
            n
        } else {
            0
        },
    decreases n,
{
    if n > 0 {
        lemma_count_const((n - 1) as nat, v, b);
        assert(Seq::new(n, |i: int| v).drop_last() =~= Seq::new((n - 1) as nat, |i: int| v));
    }
}

/// The start state is well formed.
pub proof fn lemma_start_wf(n: nat)
    requires
        n <= MAX_TASKS,
    ensures
        run_wf(start_spec(n)),
{
    let s = start_spec(n);
    lemma_count_const(n, true, true);
    lemma_count_const(n, false, false);
    assert forall|id: int| 0 <= id < n implies (s.queued[id] <==> s.queue.contains(id as usize)) by {
        assert(s.queue[id] == id as usize);
    }
}

/// A wake keeps the state well formed.
pub proof fn lemma_wake_wf(s: RunView, id: int)
    requires
        run_wf(s),
    ensures
        run_wf(wake_spec(s, id).0),
{
    let (t, notify) = wake_spec(s, id);
    if notify {
        lemma_count_update(s.queued, id, true, true);
        assert(!s.queue.contains(id as usize));
        assert forall|i: int, j: int| 0 <= i < j < t.queue.len() implies t.queue[i] != t.queue[j] by {
            if j == t.queue.len() - 1 {
                assert(s.queue[i] == t.queue[i]);
            }
        }
        assert forall|x: int| 0 <= x < t.queued.len() implies (t.queued[x] <==> t.queue.contains(
            x as usize,
        )) by {
            if t.queue.contains(x as usize) {
                let k = choose|k: int| 0 <= k < t.queue.len() && t.queue[k] == x as usize;
                if k < s.queue.len() {
                    assert(s.queue[k] == x as usize);
                }
            }
            if x != id && s.queue.contains(x as usize) {
                let k = choose|k: int| 0 <= k < s.queue.len() && s.queue[k] == x as usize;
                assert(t.queue[k] == x as usize);
            }
            if x == id {
                assert(t.queue[t.queue.len() - 1] == x as usize);
            }
        }
    }
}

/// Taking the front entry keeps the state well formed.
proof fn lemma_pop_wf(s: RunView)
    requires
        run_wf(s),
        s.queue.len() > 0,
    ensures
        ({
            let id = s.queue[0];
            let t = RunView {
                queue: s.queue.drop_first(),
                queued: s.queued.update(id as int, false),
                ..s
            };
            run_wf(t)
        }),
{
    let id = s.queue[0];
    let t = RunView { queue: s.queue.drop_first(), queued: s.queued.update(id as int, false), ..s };
    assert(s.queue.contains(id));
    lemma_count_update(s.queued, id as int, false, true);
    assert forall|x: int| 0 <= x < t.queued.len() implies (t.queued[x] <==> t.queue.contains(
        x as usize,
    )) by {
        if t.queue.contains(x as usize) {
            let k = choose|k: int| 0 <= k < t.queue.len() && t.queue[k] == x as usize;
            assert(s.queue[k + 1] == x as usize);
        }
        if x != id && s.queue.contains(x as usize) {
            let k = choose|k: int| 0 <= k < s.queue.len() && s.queue[k] == x as usize;
            assert(k != 0);
            assert(t.queue[k - 1] == x as usize);
        }
    }
}

/// Choosing the next task keeps the state well formed, and the chosen task is
/// one of the run's incomplete tasks.
pub proof fn lemma_next_wf(s: RunView)
    requires
        run_wf(s),
    ensures
        run_wf(next_spec(s).0),
        next_spec(s).0.completed == s.completed,
        next_spec(s).0.running == s.running,
        next_spec(s).1 matches Some(id) ==> id < s.completed.len() && !s.completed[id as int],
    decreases s.queue.len(),
{
    if s.queue.len() > 0 {
        lemma_pop_wf(s);
        let id = s.queue[0];
        let t = RunView {
            queue: s.queue.drop_first(),
            queued: s.queued.update(id as int, false),
            ..s
        };
        if s.completed[id as int] {
            lemma_next_wf(t);
        }
    }
}

/// Reporting the completion of an incomplete task keeps the state well formed.
pub proof fn lemma_complete_wf(s: RunView, id: int)
    requires
        run_wf(s),
        0 <= id < s.completed.len(),
        !s.completed[id],
    ensures
        run_wf(complete_spec(s, id)),
{
    lemma_count_update(s.completed, id, true, false);
}

/// The executor's state for one run: the ready queue, the per-task "queued"
/// and "complete" flags, and the count of incomplete tasks. Before a run and
/// after it, wakes reach no task.
pub struct ExecutorState {
    queue: heapless::spsc::Queue<usize, QUEUE_SLOTS>,
    is_queued: Vec<bool>,
    completed: Vec<bool>,
    pending: usize,
    running: bool,
}

impl View for ExecutorState {
    type V = RunView;

    closed spec fn view(&self) -> RunView {
        RunView {
            running: self.running,
            queue: queue_items(self.queue),
            queued: self.is_queued@,
            completed: self.completed@,
            pending: self.pending as nat,
        }
    }
}

impl ExecutorState {
    /// A state with no run in progress.
    pub fn new() -> (r: ExecutorState)
        ensures
            run_wf(r@),
            !r@.running,
            r@.queue.len() == 0,
            r@.queued.len() == 0,
            r@.pending == 0,
    {
        ExecutorState {
            queue: queue_new(),
            is_queued: Vec::new(),
            completed: Vec::new(),
            pending: 0,
            running: false,
        }
    }

    /// Begins a run of `n` tasks: every id from `0` to `n - 1` is queued, in
    /// order, and none is complete.
    pub fn start(&mut self, n: usize)
        requires
            n <= MAX_TASKS,
        ensures
            final(self)@ == start_spec(n as nat),
            run_wf(final(self)@),
    {
        let mut queue = queue_new();
        let mut is_queued: Vec<bool> = Vec::new();
        let mut completed: Vec<bool> = Vec::new();
        let mut i: usize = 0;
        while i < n
            invariant
                i <= n <= MAX_TASKS,
                queue_items(queue) == Seq::new(i as nat, |k: int| k as usize),
                is_queued@ == Seq::new(i as nat, |k: int| true),
                completed@ == Seq::new(i as nat, |k: int| false),
            decreases n - i,
        {
            let pushed = queue_enqueue(&mut queue, i);
            assert(pushed is Ok);
            is_queued.push(true);
            completed.push(false);
            i = i + 1;
            assert(queue_items(queue) =~= Seq::new(i as nat, |k: int| k as usize));
            assert(is_queued@ =~= Seq::new(i as nat, |k: int| true));
            assert(completed@ =~= Seq::new(i as nat, |k: int| false));
        }
        self.queue = queue;
        self.is_queued = is_queued;
        self.completed = completed;
        self.pending = n;
        self.running = true;
        proof {
            lemma_start_wf(n as nat);
        }
    }

    /// Whether a run is in progress.
    pub fn is_running(&self) -> (r: bool)
        ensures
            r == self@.running,
    {
        self.running
    }

    /// Wakes task `id`. Only a wake that moves the task from "not queued" to
    /// "queued" enqueues it; it returns `true`, and the run loop must then be
    /// notified. Any other wake (already queued, complete, unknown id, or no
    /// run in progress) changes nothing and returns `false`.
    pub fn wake(&mut self, id: usize) -> (notify: bool)
        requires
            run_wf(old(self)@),
        ensures
            (final(self)@, notify) == wake_spec(old(self)@, id as int),
            run_wf(final(self)@),
    {
        proof {
            lemma_wake_wf(self@, id as int);
            lemma_count_le(self@.queued, true);
        }
        if self.running && id < self.is_queued.len() && !self.is_queued[id] && !self.completed[id] {
            proof {
                lemma_count_bound(self@.queued, id as int, true);
            }
            let pushed = queue_enqueue(&mut self.queue, id);
            // one entry per task at most: the queue is never full here
            assert(pushed is Ok);
            self.is_queued.set(id, true);
            true
        } else {
            false
        }
    }

    /// Takes the next task to poll off the ready queue and clears its flag, so
    /// that it can be woken again. Complete tasks found on the way are dropped
    /// from the queue and never returned. `None` when the queue runs empty.
    pub fn next_task(&mut self) -> (r: Option<usize>)
        requires
            run_wf(old(self)@),
        ensures
            (final(self)@, r) == next_spec(old(self)@),
            run_wf(final(self)@),
            r matches Some(id) ==> id < old(self)@.completed.len() && !old(self)@.completed[id as int],
    {
        proof {
            lemma_next_wf(self@);
        }
        let ghost target = next_spec(self@);
        let mut result: Option<usize> = None;
        let mut searching = true;
        while searching
            invariant
                run_wf(self@),
                searching ==> next_spec(self@) == target && result is None,
                !searching ==> (self@, result) == target,
            decreases queue_items(self.queue).len() + if searching {
                1int
            } else {
                0int
            },
        {
            proof {
                if queue_items(self.queue).len() > 0 {
                    lemma_pop_wf(self@);
                }
            }
            match queue_dequeue(&mut self.queue) {
                None => {
                    searching = false;
                },
                Some(id) => {
                    self.is_queued.set(id, false);
                    if !self.completed[id] {
                        result = Some(id);
                        searching = false;
                    }
                },
            }
        }
        result
    }

    /// Records that task `id` reported completion when polled.
    pub fn task_completed(&mut self, id: usize)
        requires
            run_wf(old(self)@),
            id < old(self)@.completed.len(),
            !old(self)@.completed[id as int],
        ensures
            final(self)@ == complete_spec(old(self)@, id as int),
            run_wf(final(self)@),
    {
        proof {
            lemma_complete_wf(self@, id as int);
            lemma_count_bound(self@.completed, id as int, true);
            lemma_count_update(self@.completed, id as int, true, false);
        }
        self.completed.set(id, true);
        self.pending = self.pending - 1;
    }

    /// Whether every task of the run has completed.
    pub fn is_finished(&self) -> (r: bool)
        requires
            run_wf(self@),
        ensures
            r == (self@.pending == 0),
            r <==> forall|id: int| 0 <= id < self@.completed.len() ==> self@.completed[id],
    {
        proof {
            lemma_finished_iff_all_complete(self@);
        }
        self.pending == 0
    }

    /// Ends the run: from now on every wake is discarded.
    pub fn teardown(&mut self)
        requires
            run_wf(old(self)@),
        ensures
            final(self)@ == teardown_spec(old(self)@),
            run_wf(final(self)@),
    {
        self.running = false;
    }
}

/// A run is over exactly when every task has reported completion.
pub proof fn lemma_finished_iff_all_complete(s: RunView)
    requires
        run_wf(s),
    ensures
        s.pending == 0 <==> forall|id: int| 0 <= id < s.completed.len() ==> s.completed[id],
{
    lemma_count_zero(s.completed, false);
}

/// Waking a task twice before it is next polled enqueues it once: the second
/// wake changes nothing and asks for no notification, and the queue stays
/// free of duplicates and within one entry per task.
pub proof fn lemma_wake_collapses(s: RunView, id: int)
    requires
        run_wf(s),
    ensures
        ({
            let (t, first) = wake_spec(s, id);
            let (u, second) = wake_spec(t, id);
            &&& u == t
            &&& !second
            &&& distinct(t.queue)
            &&& t.queue.len() <= t.queued.len() <= MAX_TASKS
            &&& (s.running && 0 <= id < s.queued.len() && !s.completed[id]) ==> t.queue.contains(
                id as usize,
            )
        }),
{
    lemma_wake_wf(s, id);
    let t = wake_spec(s, id).0;
    lemma_count_le(t.queued, true);
    if s.running && 0 <= id < s.queued.len() && !s.completed[id] {
        if s.queued[id] {
            assert(t == s);
        } else {
            assert(t.queue[t.queue.len() - 1] == id as usize);
        }
    }
}

/// After the run has ended, a wake is a no-op.
pub proof fn lemma_wake_after_teardown(s: RunView, id: int)
    ensures
        wake_spec(teardown_spec(s), id) == (teardown_spec(s), false),
{
}

/// While an incomplete task waits in the ready queue, the run loop finds a
/// task to poll.
pub proof fn lemma_next_finds_waiting_task(s: RunView, i: int)
    requires
        run_wf(s),
        0 <= i < s.queue.len(),
        !s.completed[s.queue[i] as int],
    ensures
        next_spec(s).1 is Some,
    decreases s.queue.len(),
{
    if i > 0 && s.completed[s.queue[0] as int] {
        lemma_pop_wf(s);
        let id = s.queue[0];
        let t = RunView {
            queue: s.queue.drop_first(),
            queued: s.queued.update(id as int, false),
            ..s
        };
        assert(t.queue[i - 1] == s.queue[i]);
        lemma_next_finds_waiting_task(t, i - 1);
    }
}

} // verus!
