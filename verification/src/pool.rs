//! Worker pool: lifecycle of background workers, the registered-task table
//! that ships opaque work items to them by numeric handle, and the
//! completion plumbing that hands a result back to an awaiting consumer.

use vstd::prelude::*;

verus! {

/// A single-writer/single-reader synchronization cell: holds one value,
/// guarded by an exclusivity flag. A store attempt while the flag is set
/// fails and returns the value to the caller instead of overwriting.
pub struct CompletionSlot<T> {
    /// The exclusivity flag: set while a store is in progress.
    writing: bool,
    value: T,
}

impl<T> CompletionSlot<T> {
    pub closed spec fn is_writing(self) -> bool {
        self.writing
    }

    pub closed spec fn contents(self) -> T {
        self.value
    }

    pub fn new(value: T) -> (slot: CompletionSlot<T>)
        ensures
            !slot.is_writing(),
            slot.contents() == value,
    {
        CompletionSlot { writing: false, value }
    }

    /// Guarded store: commits `value` and returns the previous contents,
    /// unless the slot is currently being written, in which case `value`
    /// comes back unchanged. Contention indicates a logic violation, since
    /// each slot is fed by exactly one producer.
    pub fn replace(&mut self, value: T) -> (r: Result<T, T>)
        ensures
            old(self).is_writing() ==> r == Result::<T, T>::Err(value)
                && *final(self) == *old(self),
            !old(self).is_writing() ==> r == Result::<T, T>::Ok(old(self).contents())
                && !final(self).is_writing()
                && final(self).contents() == value,
    {
        if self.writing {
            return Err(value);
        }
        self.writing = true;
        let mut previous = value;
        core::mem::swap(&mut self.value, &mut previous);
        self.writing = false;
        Ok(previous)
    }
}

/// A sequence that contains `x` anywhere but at its last position still
/// contains `x` once the last element is dropped.
proof fn lemma_drop_last_contains(s: Seq<usize>, x: usize)
    requires
        s.len() > 0,
        s.contains(x),
        x != s.last(),
    ensures
        s.drop_last().contains(x),
{
    let i = choose|i: int| 0 <= i < s.len() && s[i] == x;
    assert(i < s.len() - 1);
    assert(s.drop_last()[i] == x);
}

/// One background worker, as the pool sees it. A worker is strictly
/// single-tasked: it is either owned by the pool (`Idle`), lent to exactly
/// one in-flight task (`Posted`/`Running`/`Stored`), or written off (`Lost`).
#[derive(Clone, Copy, PartialEq, Eq, Structural)]
#[allow(inconsistent_fields)]
pub enum WorkerState {
    /// Exclusively owned by the pool and listed in its idle set.
    Idle,
    /// A task handle has been posted to the worker; the work item still
    /// sits in the registered-task table under that handle.
    Posted { handle: usize, notify: Option<usize> },
    /// The worker's entry point has taken the work item; it is running.
    Running { notify: Option<usize> },
    /// The result has been stored in the completion slot; the "done"
    /// message has not been received yet.
    Stored { notify: usize },
    /// The worker reported a fault, or a post to it failed; it is never
    /// returned to the idle set.
    Lost,
}

/// One entry of the registered-task table: the work item shipped under a
/// numeric handle, and the worker the handle was posted to.
pub struct Task<W> {
    pub work: W,
    pub worker: usize,
}

/// The consumer-visible side of one `run_notify` dispatch: a one-shot
/// completion channel fed from the dispatch's completion slot.
pub enum Channel<T> {
    /// The background computation has not reported back.
    Pending,
    /// The result arrived and has not been taken yet.
    Sent(T),
    /// The result was taken; the awaitable has resolved, exactly once.
    Taken,
}

/// The completion plumbing of one `run_notify` dispatch: the single-value
/// slot the background computation stores into, and the channel that hands
/// the drained value to the awaiting consumer.
struct NotifyCell<T> {
    slot: CompletionSlot<Option<T>>,
    channel: Channel<T>,
}

/// A deterministic model of the host's fallibility: how many of the
/// upcoming spawn attempts and handle posts fail. A plan of zeros is a
/// host on which every spawn and every post succeeds.
#[derive(Clone, Copy, PartialEq, Eq, Structural)]
pub struct FaultPlan {
    pub failing_spawns: usize,
    pub failing_posts: usize,
}

/// The two ways a dispatch itself can fail. In both cases the work item
/// comes back to the caller unchanged: nothing is leaked.
pub enum DispatchFailure<W> {
    /// No worker was idle and spawning a new one failed.
    SpawnFailed { work: W },
    /// Posting the task handle to the acquired worker failed. The worker
    /// is not returned to the idle set.
    PostFailed { work: W },
}

/// Construction failed because an underlying worker could not be spawned.
#[derive(Clone, Copy, PartialEq, Eq, Structural, Debug)]
pub struct SpawnFailed;

/// Why a handle presented to the worker entry point was refused.
#[derive(Clone, Copy, PartialEq, Eq, Structural, Debug)]
pub enum HandleError {
    /// The handle was never issued by this pool.
    Unknown,
    /// The handle was already consumed: a work item is invoked at most once.
    Consumed,
}

/// The successful outcome of a dispatch: which worker the task handle was
/// posted to, and the handle itself.
#[derive(Clone, Copy, PartialEq, Eq, Structural, Debug)]
pub struct Dispatch {
    pub worker: usize,
    pub handle: usize,
}

/// The caller's side of a `run_notify` dispatch: resolves to the stored
/// result, exactly once, via `WorkerPool::take_result`.
#[derive(Clone, Copy, PartialEq, Eq, Structural, Debug)]
pub struct Awaitable {
    id: usize,
}

impl Awaitable {
    /// The index of this awaitable's completion channel within its pool.
    pub closed spec fn index(self) -> int {
        self.id as int
    }

    /// An awaitable's index is a machine-word index.
    pub proof fn lemma_index_bounds(self)
        ensures
            0 <= self.index() <= usize::MAX,
    {
    }
}

/// A reusable set of background workers. Work items are opaque move-only
/// values of type `W`; a `run_notify` dispatch additionally carries a
/// result of type `T` back to the consumer.
///
/// The pool only does the bookkeeping: the host performs the outside
/// actions (spawning a context, running a work item) and reports their
/// outcomes back through `child_entry_point`, `store_result`,
/// `worker_done` and `worker_fault`.
pub struct WorkerPool<W, T> {
    workers: Vec<WorkerState>,
    idle: Vec<usize>,
    tasks: Vec<Option<Task<W>>>,
    notifies: Vec<NotifyCell<T>>,
    faults: FaultPlan,
    reclaimed: usize,
}

impl<W, T> WorkerPool<W, T> {
    /// The states of all workers ever spawned, indexed by worker id.
    pub closed spec fn workers(self) -> Seq<WorkerState> {
        self.workers@
    }

    pub open spec fn worker_count(self) -> int {
        self.workers().len() as int
    }

    pub open spec fn worker_state(self, w: int) -> WorkerState {
        self.workers()[w]
    }

    /// The idle set: ids of the workers the pool currently owns.
    pub closed spec fn idle_workers(self) -> Seq<usize> {
        self.idle@
    }

    /// The registered-task table, indexed by handle.
    pub closed spec fn tasks(self) -> Seq<Option<Task<W>>> {
        self.tasks@
    }

    pub open spec fn handle_count(self) -> int {
        self.tasks().len() as int
    }

    pub open spec fn awaitable_count(self) -> int {
        self.channels().len() as int
    }

    /// The completion channels of all `run_notify` dispatches, indexed by
    /// awaitable.
    pub closed spec fn channels(self) -> Seq<Channel<T>> {
        Seq::new(self.notifies@.len(), |k: int| self.notifies@[k].channel)
    }

    pub open spec fn channel(self, k: int) -> Channel<T> {
        self.channels()[k]
    }

    /// What the completion slot of awaitable `k` currently holds.
    pub closed spec fn slot_contents(self, k: int) -> Option<T> {
        self.notifies@[k].slot.contents()
    }

    /// The host model this pool was built over.
    pub closed spec fn fault_plan(self) -> FaultPlan {
        self.faults
    }

    /// How many work items were pulled back out of the task table after a
    /// failed post, instead of being leaked.
    pub closed spec fn reclaimed_count(self) -> int {
        self.reclaimed as int
    }

    /// Whether awaitable `k` is attached to worker `w`: the dispatch that
    /// created `k` is still in flight on `w`.
    pub open spec fn attached(self, w: int, k: int) -> bool {
        match self.worker_state(w) {
            WorkerState::Posted { notify, .. } => notify == Some(k as usize),
            WorkerState::Running { notify } => notify == Some(k as usize),
            WorkerState::Stored { notify } => notify == k as usize,
            _ => false,
        }
    }

    /// The structural invariant of the pool, preserved by every operation.
    ///
    /// Among other things: the idle set lists exactly the `Idle` workers
    /// and lists no worker twice; every registered task entry and every
    /// busy worker point at each other; and an in-flight awaitable is
    /// pending, attached to exactly one worker, with its completion slot
    /// empty until the result is stored.
    pub closed spec fn wf(self) -> bool {
        let n = self.worker_count();
        &&& forall|i: int| #![trigger self.idle@[i]] 0 <= i < self.idle@.len() ==> {
            &&& (self.idle@[i] as int) < n
            &&& self.workers@[self.idle@[i] as int] is Idle
        }
        &&& forall|i: int, j: int| 0 <= i < j < self.idle@.len()
            ==> self.idle@[i] != self.idle@[j]
        &&& forall|w: usize| #![trigger self.workers@[w as int]] (w as int) < n
            && self.workers@[w as int] is Idle ==> self.idle@.contains(w)
        &&& forall|w: int| #![trigger self.workers@[w]] 0 <= w < n
            ==> self.worker_ok(w)
        &&& forall|h: int| #![trigger self.tasks@[h]] 0 <= h < self.tasks@.len()
            ==> self.task_ok(h)
        &&& forall|k: int| #![trigger self.notifies@[k]] 0 <= k < self.notifies@.len()
            ==> !self.notifies@[k].slot.is_writing()
        &&& forall|w1: int, w2: int, k: int| self.attached(w1, k) && self.attached(w2, k)
            && 0 <= w1 < n && 0 <= w2 < n ==> w1 == w2
        &&& self.reclaimed + self.faults.failing_posts <= usize::MAX
    }

    /// A dispatch can obtain a worker: one is idle, or the host will let
    /// one be spawned.
    pub open spec fn can_acquire(self) -> bool {
        self.idle_workers().len() > 0 || self.fault_plan().failing_spawns == 0
    }

    /// The host will let the next handle post go through.
    pub open spec fn post_allowed(self) -> bool {
        self.fault_plan().failing_posts == 0
    }

    spec fn notify_ok(self, k: int, stored: bool) -> bool {
        &&& 0 <= k < self.notifies@.len()
        &&& self.notifies@[k].channel is Pending
        &&& stored <==> self.notifies@[k].slot.contents() is Some
    }

    spec fn worker_ok(self, w: int) -> bool {
        match self.workers@[w] {
            WorkerState::Posted { handle, notify } => {
                &&& 0 <= (handle as int) < self.tasks@.len()
                &&& self.tasks@[handle as int] matches Some(t) && t.worker == w
                &&& notify matches Some(k) ==> self.notify_ok(k as int, false)
            },
            WorkerState::Running { notify } => {
                notify matches Some(k) ==> self.notify_ok(k as int, false)
            },
            WorkerState::Stored { notify } => self.notify_ok(notify as int, true),
            _ => true,
        }
    }

    spec fn task_ok(self, h: int) -> bool {
        self.tasks@[h] matches Some(t) ==> {
            &&& (t.worker as int) < self.worker_count()
            &&& self.workers@[t.worker as int] matches WorkerState::Posted { handle, .. }
                && handle == h
        }
    }

    /// Acquiring a worker for a dispatch: `cur` differs from `prev` by
    /// popping the last idle worker (when one exists) or appending a fresh
    /// one, and by the state of that single worker `w`.
    spec fn acquired_from(cur: Self, prev: Self, w: usize) -> bool {
        &&& prev.wf()
        &&& (w as int) < cur.workers@.len()
        &&& if prev.idle@.len() > 0 {
            &&& w == prev.idle@.last()
            &&& cur.idle@ == prev.idle@.drop_last()
            &&& cur.workers@.len() == prev.workers@.len()
        } else {
            &&& w as int == prev.workers@.len()
            &&& cur.idle@ == prev.idle@
            &&& cur.workers@.len() == prev.workers@.len() + 1
        }
        &&& forall|j: int| #![trigger cur.workers@[j]] 0 <= j < prev.workers@.len()
            && j != w as int ==> cur.workers@[j] == prev.workers@[j]
    }

    /// The worker acquired for a dispatch is never one that an old task
    /// entry points at.
    proof fn lemma_acquired_fresh(cur: Self, prev: Self, w: usize)
        requires
            Self::acquired_from(cur, prev, w),
        ensures
            (w as int) < prev.workers@.len() ==> prev.workers@[w as int] is Idle,
            forall|h: int| 0 <= h < prev.tasks@.len()
                ==> (#[trigger] prev.tasks@[h] matches Some(t) ==> t.worker != w),
    {
        if prev.idle@.len() > 0 {
            assert(prev.workers@[prev.idle@[prev.idle@.len() - 1] as int] is Idle);
        }
        assert forall|h: int| 0 <= h < prev.tasks@.len()
        implies (#[trigger] prev.tasks@[h] matches Some(t) ==> t.worker != w) by {
            assert(prev.task_ok(h));
        }
    }

    /// A successful dispatch preserves the pool invariant: the acquired
    /// worker becomes `Posted` over a freshly pushed task entry, and (for
    /// a notifying dispatch) over a freshly pushed pending channel.
    proof fn lemma_dispatch_ok_wf(
        cur: Self,
        prev: Self,
        w: usize,
        handle: usize,
        nt: Option<usize>,
        work: W,
    )
        requires
            Self::acquired_from(cur, prev, w),
            handle as int == prev.tasks@.len(),
            cur.tasks@ == prev.tasks@.push(Some(Task { work, worker: w })),
            cur.workers@[w as int] == (WorkerState::Posted { handle, notify: nt }),
            nt is None ==> cur.notifies@ == prev.notifies@,
            nt matches Some(k) ==> {
                &&& k as int == prev.notifies@.len()
                &&& cur.notifies@.len() == prev.notifies@.len() + 1
                &&& forall|j: int| #![trigger cur.notifies@[j]] 0 <= j < prev.notifies@.len()
                    ==> cur.notifies@[j] == prev.notifies@[j]
                &&& cur.notifies@[k as int].channel is Pending
                &&& cur.notifies@[k as int].slot.contents() is None
                &&& !cur.notifies@[k as int].slot.is_writing()
            },
            cur.reclaimed == prev.reclaimed,
            cur.faults == prev.faults,
        ensures
            cur.wf(),
    {
        Self::lemma_acquired_fresh(cur, prev, w);
        let n = cur.worker_count();
        assert forall|i: int| #![trigger cur.idle@[i]] 0 <= i < cur.idle@.len() implies {
            &&& (cur.idle@[i] as int) < n
            &&& cur.workers@[cur.idle@[i] as int] is Idle
        } by {
            assert(cur.idle@[i] == prev.idle@[i]);
            if prev.idle@.len() > 0 {
                assert(prev.idle@[i] != prev.idle@[prev.idle@.len() - 1]);
            }
        }
        assert forall|ww: usize| #![trigger cur.workers@[ww as int]] (ww as int) < n
            && cur.workers@[ww as int] is Idle implies cur.idle@.contains(ww) by {
            assert(ww != w);
            assert(prev.workers@[ww as int] is Idle);
            assert(prev.idle@.contains(ww));
            if prev.idle@.len() > 0 {
                assert(ww != prev.idle@.last());
                lemma_drop_last_contains(prev.idle@, ww);
            }
        }
        assert forall|ww: int| #![trigger cur.workers@[ww]] 0 <= ww < n
        implies cur.worker_ok(ww) by {
            if ww == w as int {
                assert(cur.tasks@[prev.tasks@.len() as int] == Some(Task { work, worker: w }));
            } else if ww < prev.workers@.len() {
                assert(prev.worker_ok(ww));
                match prev.workers@[ww] {
                    WorkerState::Posted { handle, notify } => {
                        assert(cur.tasks@[handle as int] == prev.tasks@[handle as int]);
                        if let Some(k) = notify {
                            assert(cur.notifies@[k as int] == prev.notifies@[k as int]);
                        }
                    },
                    WorkerState::Running { notify } => {
                        if let Some(k) = notify {
                            assert(cur.notifies@[k as int] == prev.notifies@[k as int]);
                        }
                    },
                    WorkerState::Stored { notify } => {
                        assert(cur.notifies@[notify as int] == prev.notifies@[notify as int]);
                    },
                    _ => {},
                }
            }
        }
        assert forall|h: int| #![trigger cur.tasks@[h]] 0 <= h < cur.tasks@.len()
        implies cur.task_ok(h) by {
            if h < prev.tasks@.len() {
                assert(prev.task_ok(h));
                if let Some(t) = prev.tasks@[h] {
                    assert(cur.tasks@[h] == prev.tasks@[h]);
                    assert(cur.workers@[t.worker as int] == prev.workers@[t.worker as int]);
                }
            }
        }
        assert forall|w1: int, w2: int, k: int|
            cur.attached(w1, k) && cur.attached(w2, k) && 0 <= w1 < n && 0 <= w2 < n
        implies w1 == w2 by {
            if w1 != w2 {
                if w1 == w as int || w2 == w as int {
                    let other = if w1 == w as int { w2 } else { w1 };
                    assert(cur.attached(w as int, k));
                    assert(nt == Some(k as usize));
                    assert(prev.attached(other, k));
                    assert(prev.worker_ok(other));
                } else {
                    assert(prev.attached(w1, k) && prev.attached(w2, k));
                }
            }
        }
    }

    /// A failed post preserves the pool invariant: the acquired worker is
    /// written off as `Lost` and everything else is untouched.
    proof fn lemma_post_failed_wf(cur: Self, prev: Self, w: usize)
        requires
            Self::acquired_from(cur, prev, w),
            cur.workers@[w as int] is Lost,
            cur.tasks@ == prev.tasks@,
            cur.notifies@ == prev.notifies@,
            cur.reclaimed == prev.reclaimed + 1,
            cur.faults.failing_posts == prev.faults.failing_posts - 1,
            prev.faults.failing_posts > 0,
        ensures
            cur.wf(),
    {
        Self::lemma_acquired_fresh(cur, prev, w);
        let n = cur.worker_count();
        assert forall|i: int| #![trigger cur.idle@[i]] 0 <= i < cur.idle@.len() implies {
            &&& (cur.idle@[i] as int) < n
            &&& cur.workers@[cur.idle@[i] as int] is Idle
        } by {
            assert(cur.idle@[i] == prev.idle@[i]);
            if prev.idle@.len() > 0 {
                assert(prev.idle@[i] != prev.idle@[prev.idle@.len() - 1]);
            }
        }
        assert forall|ww: usize| #![trigger cur.workers@[ww as int]] (ww as int) < n
            && cur.workers@[ww as int] is Idle implies cur.idle@.contains(ww) by {
            assert(ww != w);
            assert(prev.workers@[ww as int] is Idle);
            assert(prev.idle@.contains(ww));
            if prev.idle@.len() > 0 {
                assert(ww != prev.idle@.last());
                lemma_drop_last_contains(prev.idle@, ww);
            }
        }
        assert forall|ww: int| #![trigger cur.workers@[ww]] 0 <= ww < n
        implies cur.worker_ok(ww) by {
            if ww != w as int && ww < prev.workers@.len() {
                assert(prev.worker_ok(ww));
                assert(cur.workers@[ww] == prev.workers@[ww]);
            }
        }
        assert forall|h: int| #![trigger cur.tasks@[h]] 0 <= h < cur.tasks@.len()
        implies cur.task_ok(h) by {
            assert(prev.task_ok(h));
            if let Some(t) = prev.tasks@[h] {
                assert(cur.workers@[t.worker as int] == prev.workers@[t.worker as int]);
            }
        }
        assert forall|w1: int, w2: int, k: int|
            cur.attached(w1, k) && cur.attached(w2, k) && 0 <= w1 < n && 0 <= w2 < n
        implies w1 == w2 by {
            if w1 != w2 {
                assert(w1 != w as int && w2 != w as int);
                assert(prev.attached(w1, k) && prev.attached(w2, k));
            }
        }
    }

    /// Models spawning one new background context and shipping it the
    /// executable capability it needs to later materialize a work item
    /// from a bare numeric handle. Consults the fault plan: the host may
    /// refuse. A freshly spawned worker is handed straight to its first
    /// dispatch, so it enters as `Running { notify: None }` until the
    /// caller records the dispatch; it is never placed in the idle set
    /// here.
    fn spawn(&mut self) -> (r: Result<usize, SpawnFailed>)
        requires
            old(self).wf(),
        ensures
            final(self).wf(),
            final(self).idle_workers() == old(self).idle_workers(),
            final(self).tasks() == old(self).tasks(),
            final(self).notifies@ == old(self).notifies@,
            final(self).reclaimed_count() == old(self).reclaimed_count(),
            final(self).fault_plan().failing_posts == old(self).fault_plan().failing_posts,
            old(self).fault_plan().failing_spawns == 0 ==> {
                &&& r matches Ok(w) && w as int == old(self).worker_count()
                &&& final(self).workers() == old(self).workers().push(
                    WorkerState::Running { notify: None },
                )
                &&& final(self).fault_plan() == old(self).fault_plan()
            },
            old(self).fault_plan().failing_spawns > 0 ==> {
                &&& r is Err
                &&& final(self).workers() == old(self).workers()
                &&& final(self).fault_plan().failing_spawns
                    == old(self).fault_plan().failing_spawns - 1
            },
    {
        if self.faults.failing_spawns > 0 {
            self.faults.failing_spawns = self.faults.failing_spawns - 1;
            proof {
                let prev = *old(self);
                assert forall|w1: int, w2: int, k: int|
                    self.attached(w1, k) && self.attached(w2, k) && 0 <= w1 < self.worker_count()
                        && 0 <= w2 < self.worker_count() implies w1 == w2 by {
                    assert(prev.attached(w1, k) && prev.attached(w2, k));
                }
            }
            Err(SpawnFailed)
        } else {
            let id = self.workers.len();
            self.workers.push(WorkerState::Running { notify: None });
            proof {
                let prev = *old(self);
                assert forall|w: int| 0 <= w < self.worker_count() implies self.worker_ok(w) by {
                    if w < prev.worker_count() {
                        assert(prev.worker_ok(w));
                        assert(self.workers@[w] == prev.workers@[w]);
                    }
                }
                assert forall|h: int| 0 <= h < self.tasks@.len() implies self.task_ok(h) by {
                    assert(prev.task_ok(h));
                }
                assert forall|w1: int, w2: int, k: int|
                    self.attached(w1, k) && self.attached(w2, k) && 0 <= w1 < self.worker_count()
                        && 0 <= w2 < self.worker_count() implies w1 == w2 by {
                    if w1 < prev.worker_count() && w2 < prev.worker_count() {
                        assert(prev.attached(w1, k) && prev.attached(w2, k));
                    }
                }
            }
            Ok(id)
        }
    }

    /// Creates a pool over the given host model, spawning `initial` idle
    /// workers eagerly. Fails exactly when a worker must be spawned and
    /// the host refuses to spawn one.
    pub fn with_faults(initial: usize, faults: FaultPlan) -> (r: Result<
        WorkerPool<W, T>,
        SpawnFailed,
    >)
        ensures
            (r is Ok) <==> (initial == 0 || faults.failing_spawns == 0),
            r matches Ok(pool) ==> {
                &&& pool.wf()
                &&& pool.worker_count() == initial
                &&& pool.idle_workers().len() == initial
                &&& forall|i: int| 0 <= i < initial ==> pool.idle_workers()[i] as int == i
                &&& forall|w: int| 0 <= w < initial ==> pool.worker_state(w) is Idle
                &&& pool.handle_count() == 0
                &&& pool.awaitable_count() == 0
                &&& pool.reclaimed_count() == 0
                &&& pool.fault_plan() == faults
            },
    {
        let mut pool = WorkerPool {
            workers: Vec::new(),
            idle: Vec::new(),
            tasks: Vec::new(),
            notifies: Vec::new(),
            faults,
            reclaimed: 0,
        };
        let mut i: usize = 0;
        while i < initial
            invariant
                pool.wf(),
                i <= initial,
                pool.worker_count() == i,
                pool.idle_workers().len() == i,
                forall|j: int| 0 <= j < i ==> pool.idle_workers()[j] as int == j,
                forall|w: int| 0 <= w < i ==> pool.worker_state(w) is Idle,
                pool.handle_count() == 0,
                pool.awaitable_count() == 0,
                pool.reclaimed_count() == 0,
                pool.fault_plan() == faults,
                i > 0 ==> faults.failing_spawns == 0,
            decreases initial - i,
        {
            let ghost pre = pool;
            match pool.spawn() {
                Ok(w) => {
                    let ghost mid = pool;
                    pool.workers.set(w, WorkerState::Idle);
                    pool.idle.push(w);
                    proof {
                        assert(pool.idle@ == mid.idle@.push(w));
                        assert(mid.workers@ == pre.workers@.push(
                            WorkerState::Running { notify: None },
                        ));
                        assert(pool.workers@ == mid.workers@.update(w as int, WorkerState::Idle));
                        assert forall|j: int| 0 <= j <= i implies pool.worker_state(j) is Idle by {
                            if j < i {
                                assert(pre.worker_state(j) is Idle);
                                assert(mid.workers@[j] == pre.workers@[j]);
                            }
                        }
                        assert forall|j: usize| j <= i implies pool.idle@.contains(j) by {
                            if j < i {
                                assert(pool.idle@[j as int] == pre.idle@[j as int]);
                                assert(pool.idle@[j as int] as int == j as int);
                            } else {
                                assert(pool.idle@[i as int] == w);
                            }
                        }
                        assert forall|ww: int| 0 <= ww < pool.worker_count()
                            implies pool.worker_ok(ww) by {
                            assert(mid.worker_ok(ww));
                            if ww != w as int {
                                assert(pool.workers@[ww] == mid.workers@[ww]);
                            }
                        }
                        assert forall|w1: int, w2: int, k: int|
                            pool.attached(w1, k) && pool.attached(w2, k) && 0 <= w1
                                < pool.worker_count() && 0 <= w2 < pool.worker_count()
                            implies w1 == w2 by {
                            assert(w1 != w as int && w2 != w as int);
                            assert(mid.attached(w1, k) && mid.attached(w2, k));
                        }
                    }
                },
                Err(_) => {
                    return Err(SpawnFailed);
                },
            }
            i = i + 1;
        }
        Ok(pool)
    }

    /// Fire-and-forget dispatch. Pops an idle worker if one exists — and
    /// spawns a new one instead of ever blocking — registers the work item
    /// in the task table under a fresh handle, and posts that handle to
    /// the worker. No result is observable beyond the outcome of the
    /// dispatch itself.
    ///
    /// On a failed post the work item is pulled back out and returned
    /// inside the error — nothing is leaked — and the worker that failed
    /// to receive is not returned to the idle set.
    pub fn run(&mut self, work: W) -> (r: Result<Dispatch, DispatchFailure<W>>)
        requires
            old(self).wf(),
        ensures
            final(self).wf(),
            (r is Ok) <==> (old(self).can_acquire() && old(self).post_allowed()),
            r matches Ok(d) ==> {
                &&& d.handle as int == old(self).handle_count()
                &&& (d.worker as int) < final(self).worker_count()
                &&& final(self).worker_count() == (if old(self).idle_workers().len() > 0 {
                    old(self).worker_count()
                } else {
                    old(self).worker_count() + 1
                })
                &&& final(self).tasks() == old(self).tasks().push(
                    Some(Task { work, worker: d.worker }),
                )
                &&& (if old(self).idle_workers().len() > 0 {
                    &&& d.worker == old(self).idle_workers().last()
                    &&& final(self).idle_workers() == old(self).idle_workers().drop_last()
                    &&& final(self).workers() == old(self).workers().update(
                        d.worker as int,
                        WorkerState::Posted { handle: d.handle, notify: None },
                    )
                } else {
                    &&& d.worker as int == old(self).worker_count()
                    &&& final(self).idle_workers() == old(self).idle_workers()
                    &&& final(self).workers() == old(self).workers().push(
                        WorkerState::Posted { handle: d.handle, notify: None },
                    )
                })
                &&& final(self).channels() == old(self).channels()
                &&& final(self).reclaimed_count() == old(self).reclaimed_count()
                &&& final(self).fault_plan() == old(self).fault_plan()
            },
            r matches Err(DispatchFailure::SpawnFailed { work: w0 }) ==> {
                &&& w0 == work
                &&& old(self).idle_workers().len() == 0
                &&& final(self).workers() == old(self).workers()
                &&& final(self).idle_workers() == old(self).idle_workers()
                &&& final(self).tasks() == old(self).tasks()
                &&& final(self).channels() == old(self).channels()
                &&& final(self).reclaimed_count() == old(self).reclaimed_count()
                &&& final(self).fault_plan().failing_spawns == old(
                    self,
                ).fault_plan().failing_spawns - 1
                &&& final(self).fault_plan().failing_posts == old(
                    self,
                ).fault_plan().failing_posts
            },
            r matches Err(DispatchFailure::PostFailed { work: w0 }) ==> {
                &&& w0 == work
                &&& final(self).tasks() == old(self).tasks()
                &&& final(self).channels() == old(self).channels()
                &&& final(self).reclaimed_count() == old(self).reclaimed_count() + 1
                &&& final(self).fault_plan().failing_posts == old(
                    self,
                ).fault_plan().failing_posts - 1
                &&& (if old(self).idle_workers().len() > 0 {
                    &&& final(self).idle_workers() == old(self).idle_workers().drop_last()
                    &&& final(self).workers() == old(self).workers().update(
                        old(self).idle_workers().last() as int,
                        WorkerState::Lost,
                    )
                } else {
                    &&& final(self).idle_workers() == old(self).idle_workers()
                    &&& final(self).workers() == old(self).workers().push(WorkerState::Lost)
                })
            },
            forall|k: int| final(self).slot_contents(k) == old(self).slot_contents(k),
    {
        let ghost work_snapshot = work;
        let worker: usize;
        if self.idle.len() > 0 {
            worker = self.idle.pop().unwrap();
        } else {
            match self.spawn() {
                Ok(w) => {
                    worker = w;
                },
                Err(_) => {
                    return Err(DispatchFailure::SpawnFailed { work });
                },
            }
        }
        // the acquired worker is not in the idle set any more
        if self.faults.failing_posts > 0 {
            // the host refuses the post: reclaim the work item, write the
            // worker off
            self.faults.failing_posts = self.faults.failing_posts - 1;
            self.workers.set(worker, WorkerState::Lost);
            self.reclaimed = self.reclaimed + 1;
            proof {
                Self::lemma_post_failed_wf(*self, *old(self), worker);
            }
            return Err(DispatchFailure::PostFailed { work });
        }
        let handle = self.tasks.len();
        self.tasks.push(Some(Task { work, worker }));
        self.workers.set(worker, WorkerState::Posted { handle, notify: None });
        proof {
            Self::lemma_dispatch_ok_wf(*self, *old(self), worker, handle, None, work_snapshot);
        }
        Ok(Dispatch { worker, handle })
    }

    /// Dispatch that also captures the work item's eventual result: the
    /// dispatch is wired to a fresh completion slot and a fresh pending
    /// channel, and the returned awaitable resolves — exactly once, via
    /// `take_result` — to the value the worker later stores.
    ///
    /// Succeeds and fails exactly as `run` does; on failure the work item
    /// comes back inside the error and no channel is created.
    pub fn run_notify(&mut self, work: W) -> (r: Result<
        (Dispatch, Awaitable),
        DispatchFailure<W>,
    >)
        requires
            old(self).wf(),
        ensures
            final(self).wf(),
            (r is Ok) <==> (old(self).can_acquire() && old(self).post_allowed()),
            r matches Ok(p) ==> {
                &&& p.0.handle as int == old(self).handle_count()
                &&& (p.0.worker as int) < final(self).worker_count()
                &&& final(self).worker_count() == (if old(self).idle_workers().len() > 0 {
                    old(self).worker_count()
                } else {
                    old(self).worker_count() + 1
                })
                &&& p.1.index() == old(self).awaitable_count()
                &&& final(self).tasks() == old(self).tasks().push(
                    Some(Task { work, worker: p.0.worker }),
                )
                &&& final(self).channels() == old(self).channels().push(Channel::Pending)
                &&& final(self).slot_contents(p.1.index()) is None
                &&& (if old(self).idle_workers().len() > 0 {
                    &&& p.0.worker == old(self).idle_workers().last()
                    &&& final(self).idle_workers() == old(self).idle_workers().drop_last()
                    &&& final(self).workers() == old(self).workers().update(
                        p.0.worker as int,
                        WorkerState::Posted { handle: p.0.handle, notify: Some(p.1.index() as usize) },
                    )
                } else {
                    &&& p.0.worker as int == old(self).worker_count()
                    &&& final(self).idle_workers() == old(self).idle_workers()
                    &&& final(self).workers() == old(self).workers().push(
                        WorkerState::Posted { handle: p.0.handle, notify: Some(p.1.index() as usize) },
                    )
                })
                &&& final(self).reclaimed_count() == old(self).reclaimed_count()
                &&& final(self).fault_plan() == old(self).fault_plan()
            },
            r matches Err(DispatchFailure::SpawnFailed { work: w0 }) ==> {
                &&& w0 == work
                &&& old(self).idle_workers().len() == 0
                &&& final(self).workers() == old(self).workers()
                &&& final(self).idle_workers() == old(self).idle_workers()
                &&& final(self).tasks() == old(self).tasks()
                &&& final(self).channels() == old(self).channels()
                &&& final(self).reclaimed_count() == old(self).reclaimed_count()
                &&& final(self).fault_plan().failing_spawns == old(
                    self,
                ).fault_plan().failing_spawns - 1
                &&& final(self).fault_plan().failing_posts == old(
                    self,
                ).fault_plan().failing_posts
            },
            r matches Err(DispatchFailure::PostFailed { work: w0 }) ==> {
                &&& w0 == work
                &&& final(self).tasks() == old(self).tasks()
                &&& final(self).channels() == old(self).channels()
                &&& final(self).reclaimed_count() == old(self).reclaimed_count() + 1
                &&& final(self).fault_plan().failing_posts == old(
                    self,
                ).fault_plan().failing_posts - 1
                &&& (if old(self).idle_workers().len() > 0 {
                    &&& final(self).idle_workers() == old(self).idle_workers().drop_last()
                    &&& final(self).workers() == old(self).workers().update(
                        old(self).idle_workers().last() as int,
                        WorkerState::Lost,
                    )
                } else {
                    &&& final(self).idle_workers() == old(self).idle_workers()
                    &&& final(self).workers() == old(self).workers().push(WorkerState::Lost)
                })
            },
            forall|k: int| 0 <= k < old(self).awaitable_count()
                ==> final(self).slot_contents(k) == old(self).slot_contents(k),
    {
        let ghost work_snapshot = work;
        let worker: usize;
        if self.idle.len() > 0 {
            worker = self.idle.pop().unwrap();
        } else {
            match self.spawn() {
                Ok(w) => {
                    worker = w;
                },
                Err(_) => {
                    return Err(DispatchFailure::SpawnFailed { work });
                },
            }
        }
        if self.faults.failing_posts > 0 {
            self.faults.failing_posts = self.faults.failing_posts - 1;
            self.workers.set(worker, WorkerState::Lost);
            self.reclaimed = self.reclaimed + 1;
            proof {
                Self::lemma_post_failed_wf(*self, *old(self), worker);
            }
            return Err(DispatchFailure::PostFailed { work });
        }
        let handle = self.tasks.len();
        let notify_id = self.notifies.len();
        self.tasks.push(Some(Task { work, worker }));
        self.notifies.push(
            NotifyCell { slot: CompletionSlot::new(None), channel: Channel::Pending },
        );
        self.workers.set(worker, WorkerState::Posted { handle, notify: Some(notify_id) });
        proof {
            Self::lemma_dispatch_ok_wf(
                *self,
                *old(self),
                worker,
                handle,
                Some(notify_id),
                work_snapshot,
            );
            assert(self.channels() =~= old(self).channels().push(Channel::Pending));
        }
        Ok((Dispatch { worker, handle }, Awaitable { id: notify_id }))
    }

    /// The worker-side entry point: presented with a posted task handle, it
    /// takes the corresponding work item out of the registered-task table —
    /// exactly once — and hands it back for the host to invoke. The handle
    /// is consumed by this; presenting it again, or presenting one this
    /// pool never issued, is refused.
    pub fn child_entry_point(&mut self, handle: usize) -> (r: Result<W, HandleError>)
        requires
            old(self).wf(),
        ensures
            final(self).wf(),
            (r is Ok) <==> ((handle as int) < old(self).handle_count()
                && old(self).tasks()[handle as int] is Some),
            handle as int >= old(self).handle_count() ==> r == Err::<W, HandleError>(
                HandleError::Unknown,
            ),
            (handle as int) < old(self).handle_count() && old(self).tasks()[handle as int] is None
                ==> r == Err::<W, HandleError>(HandleError::Consumed),
            r is Err ==> {
                &&& final(self).workers() == old(self).workers()
                &&& final(self).tasks() == old(self).tasks()
            },
            r matches Ok(wk) ==> (old(self).tasks()[handle as int] matches Some(t) && {
                &&& wk == t.work
                &&& final(self).tasks() == old(self).tasks().update(handle as int, None)
                &&& (old(self).worker_state(t.worker as int) matches WorkerState::Posted {
                    handle: h0,
                    notify,
                } && h0 == handle && final(self).workers() == old(self).workers().update(
                    t.worker as int,
                    WorkerState::Running { notify },
                ))
            }),
            final(self).idle_workers() == old(self).idle_workers(),
            final(self).channels() == old(self).channels(),
            forall|k: int| final(self).slot_contents(k) == old(self).slot_contents(k),
            final(self).reclaimed_count() == old(self).reclaimed_count(),
            final(self).fault_plan() == old(self).fault_plan(),
    {
        if handle >= self.tasks.len() {
            return Err(HandleError::Unknown);
        }
        let mut taken: Option<Task<W>> = None;
        self.tasks.set_and_swap(handle, &mut taken);
        match taken {
            None => {
                proof {
                    assert(self.tasks@ =~= old(self).tasks@);
                    assert forall|w1: int, w2: int, k: int|
                        self.attached(w1, k) && self.attached(w2, k) && 0 <= w1
                            < self.worker_count() && 0 <= w2 < self.worker_count()
                    implies w1 == w2 by {
                        assert(old(self).attached(w1, k) && old(self).attached(w2, k));
                    }
                    assert forall|w: int| 0 <= w < self.worker_count()
                    implies #[trigger] self.worker_ok(w) by {
                        assert(old(self).worker_ok(w));
                    }
                    assert forall|h: int| 0 <= h < self.tasks@.len()
                    implies #[trigger] self.task_ok(h) by {
                        assert(old(self).task_ok(h));
                    }
                }
                Err(HandleError::Consumed)
            },
            Some(t) => {
                proof {
                    assert(old(self).task_ok(handle as int));
                }
                let st = self.workers[t.worker];
                match st {
                    WorkerState::Posted { handle: h0, notify } => {
                        self.workers.set(t.worker, WorkerState::Running { notify });
                        proof {
                            Self::lemma_consume_wf(*self, *old(self), t.worker, handle, notify);
                        }
                        Ok(t.work)
                    },
                    _ => {
                        proof {
                            assert(false);
                        }
                        Err(HandleError::Consumed)
                    },
                }
            },
        }
    }

    /// Consuming a posted handle preserves the pool invariant: the task
    /// entry is cleared and its worker moves from `Posted` to `Running`
    /// with the same attachment.
    proof fn lemma_consume_wf(cur: Self, prev: Self, w: usize, handle: usize, nt: Option<usize>)
        requires
            prev.wf(),
            (handle as int) < prev.tasks@.len(),
            prev.tasks@[handle as int] matches Some(t) && t.worker == w,
            prev.workers@[w as int] == (WorkerState::Posted { handle, notify: nt }),
            cur.tasks@ == prev.tasks@.update(handle as int, None),
            cur.workers@ == prev.workers@.update(w as int, WorkerState::Running { notify: nt }),
            cur.idle@ == prev.idle@,
            cur.notifies@ == prev.notifies@,
            cur.faults == prev.faults,
            cur.reclaimed == prev.reclaimed,
        ensures
            cur.wf(),
    {
        let n = cur.worker_count();
        assert forall|i: int| #![trigger cur.idle@[i]] 0 <= i < cur.idle@.len() implies {
            &&& (cur.idle@[i] as int) < n
            &&& cur.workers@[cur.idle@[i] as int] is Idle
        } by {
            assert(prev.workers@[prev.idle@[i] as int] is Idle);
        }
        assert forall|ww: usize| #![trigger cur.workers@[ww as int]] (ww as int) < n
            && cur.workers@[ww as int] is Idle implies cur.idle@.contains(ww) by {
            assert(prev.workers@[ww as int] is Idle);
        }
        assert forall|ww: int| #![trigger cur.workers@[ww]] 0 <= ww < n
        implies cur.worker_ok(ww) by {
            assert(prev.worker_ok(ww));
            if ww != w as int {
                if let WorkerState::Posted { handle: h2, .. } = prev.workers@[ww] {
                    assert(prev.task_ok(h2 as int));
                    assert(h2 != handle);
                }
            }
        }
        assert forall|h: int| #![trigger cur.tasks@[h]] 0 <= h < cur.tasks@.len()
        implies cur.task_ok(h) by {
            assert(prev.task_ok(h));
            if h != handle as int {
                if let Some(t) = prev.tasks@[h] {
                    assert(prev.worker_ok(t.worker as int));
                    assert(t.worker != w);
                }
            }
        }
        assert forall|w1: int, w2: int, k: int|
            cur.attached(w1, k) && cur.attached(w2, k) && 0 <= w1 < n && 0 <= w2 < n
        implies w1 == w2 by {
            assert(prev.attached(w1, k) && prev.attached(w2, k));
        }
    }

    /// Creates `initial` idle workers eagerly, on a host on which every
    /// spawn and every post succeeds; such a construction never fails.
    pub fn new(initial: usize) -> (r: Result<WorkerPool<W, T>, SpawnFailed>)
        ensures
            r is Ok,
            r matches Ok(pool) ==> {
                &&& pool.wf()
                &&& pool.worker_count() == initial
                &&& pool.idle_workers().len() == initial
                &&& forall|i: int| 0 <= i < initial ==> pool.idle_workers()[i] as int == i
                &&& forall|w: int| 0 <= w < initial ==> pool.worker_state(w) is Idle
                &&& pool.handle_count() == 0
                &&& pool.awaitable_count() == 0
                &&& pool.reclaimed_count() == 0
                &&& pool.fault_plan() == (FaultPlan { failing_spawns: 0, failing_posts: 0 })
            },
    {
        Self::with_faults(initial, FaultPlan { failing_spawns: 0, failing_posts: 0 })
    }

    /// Models the tail of the wrapped work function of a notifying
    /// dispatch: after the host has invoked the work item on `worker` and
    /// computed `value`, the value is committed into the dispatch's
    /// completion slot. Under the single-producer invariant the guarded
    /// store provably never contends.
    pub fn store_result(&mut self, worker: usize, value: T)
        requires
            old(self).wf(),
            (worker as int) < old(self).worker_count(),
            old(self).worker_state(worker as int) matches WorkerState::Running {
                notify: Some(_),
            },
        ensures
            final(self).wf(),
            old(self).worker_state(worker as int) matches WorkerState::Running {
                notify: Some(k),
            } && {
                &&& final(self).workers() == old(self).workers().update(
                    worker as int,
                    WorkerState::Stored { notify: k },
                )
                &&& final(self).slot_contents(k as int) == Some(value)
                &&& forall|j: int| 0 <= j < old(self).awaitable_count() && j != k as int
                    ==> final(self).slot_contents(j) == old(self).slot_contents(j)
            },
            final(self).idle_workers() == old(self).idle_workers(),
            final(self).tasks() == old(self).tasks(),
            final(self).channels() == old(self).channels(),
            final(self).reclaimed_count() == old(self).reclaimed_count(),
            final(self).fault_plan() == old(self).fault_plan(),
    {
        let st = self.workers[worker];
        match st {
            WorkerState::Running { notify: Some(k) } => {
                let mut cell = NotifyCell {
                    slot: CompletionSlot::new(None),
                    channel: Channel::Pending,
                };
                self.notifies.set_and_swap(k, &mut cell);
                let committed = cell.slot.replace(Some(value));
                proof {
                    // the slot was empty and unlocked: the store succeeded
                    assert(committed is Ok);
                }
                self.notifies.set(k, cell);
                self.workers.set(worker, WorkerState::Stored { notify: k });
                proof {
                    let prev = *old(self);
                    assert(self.channels() =~= prev.channels());
                    assert forall|ww: int| 0 <= ww < self.worker_count()
                    implies #[trigger] self.worker_ok(ww) by {
                        assert(prev.worker_ok(ww));
                        if ww != worker as int {
                            if prev.attached(ww, k as int) {
                                assert(prev.attached(worker as int, k as int));
                            }
                            assert(!prev.attached(ww, k as int));
                        }
                    }
                    assert forall|h: int| 0 <= h < self.tasks@.len()
                    implies #[trigger] self.task_ok(h) by {
                        assert(prev.task_ok(h));
                        if let Some(t) = prev.tasks@[h] {
                            assert(prev.worker_ok(t.worker as int));
                        }
                    }
                    assert forall|w1: int, w2: int, kk: int|
                        self.attached(w1, kk) && self.attached(w2, kk) && 0 <= w1
                            < self.worker_count() && 0 <= w2 < self.worker_count()
                    implies w1 == w2 by {
                        assert(prev.attached(w1, kk) && prev.attached(w2, kk));
                    }
                }
            },
            _ => {
                proof {
                    assert(false);
                }
            },
        }
    }

    /// Reinserts a reclaimed worker into the idle set. The caller owes the
    /// proof that the worker is not already present: no worker is ever
    /// listed twice.
    fn push_idle(&mut self, worker: usize)
        requires
            forall|i: int| 0 <= i < old(self).idle@.len() ==> old(self).idle@[i] != worker,
        ensures
            final(self).idle@ == old(self).idle@.push(worker),
            final(self).workers@ == old(self).workers@,
            final(self).tasks@ == old(self).tasks@,
            final(self).notifies@ == old(self).notifies@,
            final(self).faults == old(self).faults,
            final(self).reclaimed == old(self).reclaimed,
    {
        self.idle.push(worker);
    }

    /// Models receipt of a worker's "done" message, sent strictly after
    /// its work function returned: for a notifying dispatch the completion
    /// slot is drained — exactly once — into the channel, resolving the
    /// awaitable; then the worker is reclaimed into the idle set, under
    /// the proof that it is not already present there.
    pub fn worker_done(&mut self, worker: usize)
        requires
            old(self).wf(),
            (worker as int) < old(self).worker_count(),
            (old(self).worker_state(worker as int) matches WorkerState::Running { notify: None })
                || (old(self).worker_state(worker as int) is Stored),
        ensures
            final(self).wf(),
            final(self).workers() == old(self).workers().update(worker as int, WorkerState::Idle),
            final(self).idle_workers() == old(self).idle_workers().push(worker),
            final(self).tasks() == old(self).tasks(),
            final(self).reclaimed_count() == old(self).reclaimed_count(),
            final(self).fault_plan() == old(self).fault_plan(),
            old(self).worker_state(worker as int) matches WorkerState::Stored { notify: k } && {
                &&& old(self).slot_contents(k as int) matches Some(v) && final(self).channels()
                    == old(self).channels().update(k as int, Channel::Sent(v))
                &&& final(self).slot_contents(k as int) is None
                &&& forall|j: int| 0 <= j < old(self).awaitable_count() && j != k as int
                    ==> final(self).slot_contents(j) == old(self).slot_contents(j)
            } || (old(self).worker_state(worker as int) matches WorkerState::Running {
                notify: None,
            } && final(self).channels() == old(self).channels() && forall|j: int|
                0 <= j < old(self).awaitable_count() ==> final(self).slot_contents(j) == old(
                self,
            ).slot_contents(j)),
    {
        let st = self.workers[worker];
        match st {
            WorkerState::Stored { notify: k } => {
                let mut cell = NotifyCell {
                    slot: CompletionSlot::new(None),
                    channel: Channel::Pending,
                };
                self.notifies.set_and_swap(k, &mut cell);
                let drained = cell.slot.replace(None);
                match drained {
                    Ok(Some(v)) => {
                        cell.channel = Channel::Sent(v);
                    },
                    _ => {
                        proof {
                            assert(false);
                        }
                    },
                }
                self.notifies.set(k, cell);
            },
            WorkerState::Running { notify: None } => {},
            _ => {
                proof {
                    assert(false);
                }
            },
        }
        let ghost mid = *self;
        self.workers.set(worker, WorkerState::Idle);
        proof {
            assert forall|i: int| 0 <= i < self.idle@.len()
            implies #[trigger] self.idle@[i] != worker by {
                assert(old(self).workers@[old(self).idle@[i] as int] is Idle);
            }
        }
        self.push_idle(worker);
        proof {
            let prev = *old(self);
            let ghost kk: int = match prev.workers@[worker as int] {
                WorkerState::Stored { notify: k } => k as int,
                _ => -1,
            };
            assert forall|i: int| #![trigger self.idle@[i]] 0 <= i < self.idle@.len() implies {
                &&& (self.idle@[i] as int) < self.worker_count()
                &&& self.workers@[self.idle@[i] as int] is Idle
            } by {
                if i < prev.idle@.len() {
                    assert(self.idle@[i] == prev.idle@[i]);
                    assert(prev.workers@[prev.idle@[i] as int] is Idle);
                }
            }
            assert forall|ww: usize| #![trigger self.workers@[ww as int]] (ww as int)
                < self.worker_count() && self.workers@[ww as int] is Idle
            implies self.idle@.contains(ww) by {
                if ww != worker {
                    assert(prev.workers@[ww as int] is Idle);
                    assert(prev.idle@.contains(ww));
                    let i = choose|i: int| 0 <= i < prev.idle@.len() && prev.idle@[i] == ww;
                    assert(self.idle@[i] == ww);
                } else {
                    assert(self.idle@[self.idle@.len() - 1] == worker);
                }
            }
            assert forall|ww: int| 0 <= ww < self.worker_count()
            implies #[trigger] self.worker_ok(ww) by {
                assert(prev.worker_ok(ww));
                if ww != worker as int {
                    if kk >= 0 && prev.attached(ww, kk) {
                        assert(prev.attached(worker as int, kk));
                    }
                    assert(!(kk >= 0 && prev.attached(ww, kk)));
                }
            }
            assert forall|h: int| 0 <= h < self.tasks@.len()
            implies #[trigger] self.task_ok(h) by {
                assert(prev.task_ok(h));
                if let Some(t) = prev.tasks@[h] {
                    assert(prev.worker_ok(t.worker as int));
                    assert(t.worker != worker);
                }
            }
            assert forall|w1: int, w2: int, k2: int|
                self.attached(w1, k2) && self.attached(w2, k2) && 0 <= w1 < self.worker_count()
                    && 0 <= w2 < self.worker_count() implies w1 == w2 by {
                assert(prev.attached(w1, k2) && prev.attached(w2, k2));
            }
            if prev.workers@[worker as int] is Stored {
                if let Some(v0) = prev.slot_contents(kk) {
                    assert(self.channels() =~= prev.channels().update(kk, Channel::Sent(v0)));
                }
            } else {
                assert(self.channels() =~= prev.channels());
            }
        }
    }

    /// Models receipt of a fault report from a busy worker: the task — and
    /// its result, if one was already stored — is permanently lost, the
    /// associated awaitable (if any) stays pending forever, and the worker
    /// is never returned to the idle set.
    pub fn worker_fault(&mut self, worker: usize)
        requires
            old(self).wf(),
            (worker as int) < old(self).worker_count(),
            old(self).worker_state(worker as int) is Posted || old(self).worker_state(
                worker as int,
            ) is Running || old(self).worker_state(worker as int) is Stored,
        ensures
            final(self).wf(),
            final(self).workers() == old(self).workers().update(worker as int, WorkerState::Lost),
            final(self).idle_workers() == old(self).idle_workers(),
            final(self).channels() == old(self).channels(),
            final(self).reclaimed_count() == old(self).reclaimed_count(),
            final(self).fault_plan() == old(self).fault_plan(),
            old(self).worker_state(worker as int) matches WorkerState::Posted { handle, .. }
                ==> final(self).tasks() == old(self).tasks().update(handle as int, None),
            !(old(self).worker_state(worker as int) is Posted) ==> final(self).tasks() == old(
                self,
            ).tasks(),
    {
        let st = self.workers[worker];
        if let WorkerState::Posted { handle, .. } = st {
            // the posted handle will never be presented: the work item is
            // discarded
            self.tasks.set(handle, None);
        }
        self.workers.set(worker, WorkerState::Lost);
        proof {
            let prev = *old(self);
            assert forall|i: int| #![trigger self.idle@[i]] 0 <= i < self.idle@.len() implies {
                &&& (self.idle@[i] as int) < self.worker_count()
                &&& self.workers@[self.idle@[i] as int] is Idle
            } by {
                assert(prev.workers@[prev.idle@[i] as int] is Idle);
            }
            assert forall|ww: usize| #![trigger self.workers@[ww as int]] (ww as int)
                < self.worker_count() && self.workers@[ww as int] is Idle
            implies self.idle@.contains(ww) by {
                assert(prev.workers@[ww as int] is Idle);
            }
            assert forall|ww: int| 0 <= ww < self.worker_count()
            implies #[trigger] self.worker_ok(ww) by {
                assert(prev.worker_ok(ww));
                if ww != worker as int {
                    if let WorkerState::Posted { handle: h2, .. } = prev.workers@[ww] {
                        assert(prev.task_ok(h2 as int));
                    }
                }
            }
            assert forall|h: int| 0 <= h < self.tasks@.len()
            implies #[trigger] self.task_ok(h) by {
                assert(prev.task_ok(h));
                if let Some(t) = self.tasks@[h] {
                    assert(prev.tasks@[h] == self.tasks@[h]);
                    assert(prev.worker_ok(t.worker as int));
                    assert(t.worker != worker);
                }
            }
            assert forall|w1: int, w2: int, k2: int|
                self.attached(w1, k2) && self.attached(w2, k2) && 0 <= w1 < self.worker_count()
                    && 0 <= w2 < self.worker_count() implies w1 == w2 by {
                assert(prev.attached(w1, k2) && prev.attached(w2, k2));
            }
            assert(self.channels() =~= prev.channels());
        }
    }

    /// Polls an awaitable: if its result has arrived, takes it — exactly
    /// once; a later poll of the same awaitable yields nothing, as does a
    /// poll while the result is still pending. An awaitable whose worker
    /// was lost stays pending forever.
    pub fn take_result(&mut self, awaitable: Awaitable) -> (r: Option<T>)
        requires
            old(self).wf(),
        ensures
            final(self).wf(),
            final(self).workers() == old(self).workers(),
            final(self).idle_workers() == old(self).idle_workers(),
            final(self).tasks() == old(self).tasks(),
            final(self).reclaimed_count() == old(self).reclaimed_count(),
            final(self).fault_plan() == old(self).fault_plan(),
            forall|j: int| 0 <= j < old(self).awaitable_count() ==> final(self).slot_contents(j)
                == old(self).slot_contents(j),
            awaitable.index() >= old(self).awaitable_count() ==> r is None && final(self).channels()
                == old(self).channels(),
            awaitable.index() < old(self).awaitable_count() ==> {
                &&& (old(self).channel(awaitable.index()) matches Channel::Sent(v) ==> r == Some(v)
                    && final(self).channels() == old(self).channels().update(
                    awaitable.index(),
                    Channel::Taken,
                ))
                &&& !(old(self).channel(awaitable.index()) is Sent) ==> r is None
                    && final(self).channels() == old(self).channels()
            },
    {
        if awaitable.id >= self.notifies.len() {
            return None;
        }
        let mut cell = NotifyCell { slot: CompletionSlot::new(None), channel: Channel::Pending };
        self.notifies.set_and_swap(awaitable.id, &mut cell);
        let mut channel = Channel::Taken;
        core::mem::swap(&mut cell.channel, &mut channel);
        let result: Option<T>;
        match channel {
            Channel::Sent(v) => {
                result = Some(v);
            },
            Channel::Pending => {
                cell.channel = Channel::Pending;
                result = None;
            },
            Channel::Taken => {
                result = None;
            },
        }
        self.notifies.set(awaitable.id, cell);
        proof {
            let prev = *old(self);
            let ki = awaitable.index();
            if prev.channel(ki) is Sent {
                assert(self.channels() =~= prev.channels().update(ki, Channel::Taken));
            } else {
                assert(self.channels() =~= prev.channels());
            }
            assert forall|ww: int| 0 <= ww < self.worker_count()
            implies #[trigger] self.worker_ok(ww) by {
                assert(prev.worker_ok(ww));
                if prev.attached(ww, ki) {
                    assert(prev.notifies@[ki].channel is Pending);
                }
            }
            assert forall|h: int| 0 <= h < self.tasks@.len()
            implies #[trigger] self.task_ok(h) by {
                assert(prev.task_ok(h));
            }
            assert forall|w1: int, w2: int, k2: int|
                self.attached(w1, k2) && self.attached(w2, k2) && 0 <= w1 < self.worker_count()
                    && 0 <= w2 < self.worker_count() implies w1 == w2 by {
                assert(prev.attached(w1, k2) && prev.attached(w2, k2));
            }
        }
        result
    }

    /// How many workers are currently idle.
    pub fn idle_count(&self) -> (n: usize)
        ensures
            n as int == self.idle_workers().len(),
    {
        self.idle.len()
    }

    /// How many workers this pool has ever spawned.
    pub fn worker_total(&self) -> (n: usize)
        ensures
            n as int == self.worker_count(),
    {
        self.workers.len()
    }

    /// How many work items were pulled back out after a failed post
    /// instead of being leaked.
    pub fn reclaimed_total(&self) -> (n: usize)
        ensures
            n as int == self.reclaimed_count(),
    {
        self.reclaimed
    }

    /// Each awaitable still in flight is attached to at most one worker:
    /// the single-producer discipline that keeps its completion slot free
    /// of contention and its resolution at most once.
    pub proof fn lemma_single_producer(self)
        requires
            self.wf(),
        ensures
            forall|w1: int, w2: int, k: int|
                self.attached(w1, k) && self.attached(w2, k) && 0 <= w1 < self.worker_count() && 0
                    <= w2 < self.worker_count() ==> w1 == w2,
    {
    }

    /// No worker is ever present twice in the idle set of a well-formed
    /// pool, every listed worker exists and is idle, and every idle worker
    /// is listed: the idle set is an exact, duplicate-free roster.
    pub proof fn lemma_idle_set_exact(self)
        requires
            self.wf(),
        ensures
            forall|i: int, j: int| 0 <= i < j < self.idle_workers().len()
                ==> self.idle_workers()[i] != self.idle_workers()[j],
            forall|i: int| #![trigger self.idle_workers()[i]] 0 <= i < self.idle_workers().len()
                ==> (self.idle_workers()[i] as int) < self.worker_count() && self.worker_state(
                self.idle_workers()[i] as int,
            ) is Idle,
            forall|w: usize| #![trigger self.worker_state(w as int)] (w as int)
                < self.worker_count() && self.worker_state(w as int) is Idle
                ==> self.idle_workers().contains(w),
    {
    }
}

} // verus!
