//! The dispatch engine's verified core: the job queue, the pool counters,
//! and each worker's control decisions.
//!
//! The runtime around this core owns the threads and the locks: workers
//! share the queue behind a mutex, poll it, and act on what
//! [`worker_step`] decides. The queue's contract is the heart of the
//! engine's delivery guarantee — a push appends exactly one job and a pop
//! removes exactly the front one — and [`lemma_no_job_lost`] turns it into
//! the drain law: executing every job a fresh queue of `n` jobs yields
//! counts exactly `n` executions, none lost, none run twice.

use vstd::prelude::*;

verus! {

/// How long a worker spins before yielding its quantum.
pub const MAX_SPINS: u32 = 100;

/// How long a worker yields before sleeping a fixed interval.
pub const SLEEP_THRESHOLD: u32 = 1000;

/// A first-in, first-out job queue. The runtime shares one instance among
/// workers behind a lock; the queue itself is plain verified state.
pub struct ConcurrentQueue<T> {
    /// Queued jobs, front first.
    pub items: Vec<T>,
}

impl<T> ConcurrentQueue<T> {
    /// An empty queue.
    pub fn new() -> (r: ConcurrentQueue<T>)
        ensures
            r.items@.len() == 0,
    {
        ConcurrentQueue { items: Vec::new() }
    }

    /// Append one job at the back. No job already queued moves or vanishes.
    pub fn push(&mut self, value: T)
        ensures
            final(self).items@ == old(self).items@.push(value),
    {
        self.items.push(value);
    }

    /// Remove and return the front job; `None` on an empty queue. The job
    /// leaves the queue, so nothing can hand it out twice.
    pub fn pop(&mut self) -> (r: Option<T>)
        ensures
            match r {
                Some(v) => old(self).items@.len() > 0 && v == old(self).items@[0]
                    && final(self).items@ == old(self).items@.skip(1),
                None => old(self).items@.len() == 0 && final(self).items@ == old(self).items@,
            },
    {
        if self.items.len() == 0 {
            None
        } else {
            let v = self.items.remove(0);
            proof {
                assert(self.items@ =~= old(self).items@.skip(1));
            }
            Some(v)
        }
    }

    /// How many jobs wait.
    pub fn len(&self) -> (r: usize)
        ensures
            r == self.items@.len(),
    {
        self.items.len()
    }

    /// Whether no job waits.
    pub fn is_empty(&self) -> (r: bool)
        ensures
            r == (self.items@.len() == 0),
    {
        self.items.len() == 0
    }

    /// Hand out every queued job, in order, leaving the queue empty: each
    /// job exactly once.
    pub fn drain(&mut self) -> (r: Vec<T>)
        ensures
            r@ == old(self).items@,
            final(self).items@.len() == 0,
    {
        let mut r: Vec<T> = Vec::new();
        loop
            invariant
                r@ + self.items@ == old(self).items@,
            ensures
                r@ == old(self).items@,
                self.items@.len() == 0,
            decreases self.items@.len(),
        {
            match self.pop() {
                Some(v) => {
                    r.push(v);
                    proof {
                        assert(r@ + self.items@ =~= old(self).items@);
                    }
                },
                None => {
                    proof {
                        assert(r@ =~= r@ + self.items@);
                    }
                    break;
                },
            }
        }
        r
    }
}

/// Executing the jobs of a queue one by one, counting each on completion.
pub open spec fn spec_drain_count(jobs: Seq<int>, counter: int) -> int
    decreases jobs.len(),
{
    if jobs.len() == 0 {
        counter
    } else {
        spec_drain_count(jobs.skip(1), counter + 1)
    }
}

/// No job is lost and none runs twice: draining a queue of `n` jobs, each
/// pop handing its job out exactly once, adds exactly `n` to the count of
/// completed executions, whatever the jobs are and however many workers
/// take turns popping.
pub proof fn lemma_no_job_lost(jobs: Seq<int>, counter: int)
    ensures
        spec_drain_count(jobs, counter) == counter + jobs.len(),
    decreases jobs.len(),
{
    if jobs.len() > 0 {
        lemma_no_job_lost(jobs.skip(1), counter + 1);
    }
}

/// Counters a pool exposes without blocking job execution. The runtime
/// keeps them behind the queue's lock or a dedicated one.
pub struct PoolStats {
    /// Jobs ever submitted.
    pub total_jobs: u64,
    /// Jobs whose execution finished.
    pub completed_jobs: u64,
    /// Workers currently executing a job.
    pub active_threads: u64,
    /// Jobs submitted and not yet taken by a worker.
    pub queue_size: u64,
}

/// The books balance: every submitted job is waiting, running, or done.
pub open spec fn stats_wf(s: PoolStats) -> bool {
    s.total_jobs == s.queue_size + s.active_threads + s.completed_jobs
}

impl PoolStats {
    /// Fresh counters, all zero.
    pub fn new() -> (r: PoolStats)
        ensures
            r.total_jobs == 0 && r.completed_jobs == 0 && r.active_threads == 0 && r.queue_size
                == 0,
            stats_wf(r),
    {
        PoolStats { total_jobs: 0, completed_jobs: 0, active_threads: 0, queue_size: 0 }
    }

    /// Record a submission: one more job, one more waiting.
    pub fn record_submit(&mut self)
        requires
            old(self).total_jobs < u64::MAX,
            stats_wf(*old(self)),
        ensures
            final(self).total_jobs == old(self).total_jobs + 1,
            final(self).queue_size == old(self).queue_size + 1,
            final(self).completed_jobs == old(self).completed_jobs,
            final(self).active_threads == old(self).active_threads,
            stats_wf(*final(self)),
    {
        self.total_jobs = self.total_jobs + 1;
        self.queue_size = self.queue_size + 1;
    }

    /// Record a worker taking a job: one fewer waiting, one more running.
    pub fn record_take(&mut self)
        requires
            old(self).queue_size > 0,
            stats_wf(*old(self)),
        ensures
            final(self).queue_size == old(self).queue_size - 1,
            final(self).active_threads == old(self).active_threads + 1,
            final(self).total_jobs == old(self).total_jobs,
            final(self).completed_jobs == old(self).completed_jobs,
            stats_wf(*final(self)),
    {
        self.queue_size = self.queue_size - 1;
        self.active_threads = self.active_threads + 1;
    }

    /// Record a job finishing: one fewer running, one more done.
    pub fn record_complete(&mut self)
        requires
            old(self).active_threads > 0,
            stats_wf(*old(self)),
        ensures
            final(self).active_threads == old(self).active_threads - 1,
            final(self).completed_jobs == old(self).completed_jobs + 1,
            final(self).total_jobs == old(self).total_jobs,
            final(self).queue_size == old(self).queue_size,
            stats_wf(*final(self)),
    {
        self.active_threads = self.active_threads - 1;
        self.completed_jobs = self.completed_jobs + 1;
    }

    /// Read all four counters at once.
    pub fn snapshot(&self) -> (r: PoolSnapshot)
        ensures
            r.total_jobs == self.total_jobs,
            r.completed_jobs == self.completed_jobs,
            r.active_threads == self.active_threads,
            r.queue_size == self.queue_size,
    {
        PoolSnapshot {
            total_jobs: self.total_jobs,
            completed_jobs: self.completed_jobs,
            active_threads: self.active_threads,
            queue_size: self.queue_size,
        }
    }
}

/// When the books balance and nothing waits or runs, everything submitted
/// has completed: the engine's drain guarantee, over the counters.
pub proof fn lemma_drained_means_done(s: PoolStats)
    requires
        stats_wf(s),
        s.queue_size == 0,
        s.active_threads == 0,
    ensures
        s.completed_jobs == s.total_jobs,
{
}

/// One reading of the pool counters.
pub struct PoolSnapshot {
    /// Jobs ever submitted.
    pub total_jobs: u64,
    /// Jobs whose execution finished.
    pub completed_jobs: u64,
    /// Workers currently executing a job.
    pub active_threads: u64,
    /// Jobs submitted and not yet taken.
    pub queue_size: u64,
}

/// What a polling worker does next.
#[derive(Debug, Clone, Copy, PartialEq, Eq, Structural)]
pub enum WorkerAction {
    /// Execute the job just popped.
    RunJob,
    /// Busy-wait briefly.
    SpinWait,
    /// Yield the scheduling quantum.
    YieldNow,
    /// Sleep for the fixed short interval.
    Sleep,
    /// Observe shutdown and exit; the current job, if any, has finished.
    Exit,
}

/// The worker's control decision: exit on shutdown; run when a job was
/// popped, resetting the backoff; otherwise escalate the backoff from
/// spinning through yielding to sleeping.
pub open spec fn spec_worker_step(shutdown: bool, job_available: bool, spin_count: u32) -> (
    WorkerAction,
    u32,
) {
    if shutdown {
        (WorkerAction::Exit, spin_count)
    } else if job_available {
        (WorkerAction::RunJob, 0u32)
    } else {
        let sc = if spin_count < u32::MAX {
            (spin_count + 1) as u32
        } else {
            spin_count
        };
        if sc < MAX_SPINS {
            (WorkerAction::SpinWait, sc)
        } else if sc < SLEEP_THRESHOLD {
            (WorkerAction::YieldNow, sc)
        } else {
            (WorkerAction::Sleep, sc)
        }
    }
}

/// Decide a worker's next action from what it observed, and give back its
/// new backoff counter.
pub fn worker_step(shutdown: bool, job_available: bool, spin_count: u32) -> (r: (
    WorkerAction,
    u32,
))
    ensures
        r == spec_worker_step(shutdown, job_available, spin_count),
{
    if shutdown {
        (WorkerAction::Exit, spin_count)
    } else if job_available {
        (WorkerAction::RunJob, 0)
    } else {
        let sc = if spin_count < u32::MAX {
            spin_count + 1
        } else {
            spin_count
        };
        if sc < MAX_SPINS {
            (WorkerAction::SpinWait, sc)
        } else if sc < SLEEP_THRESHOLD {
            (WorkerAction::YieldNow, sc)
        } else {
            (WorkerAction::Sleep, sc)
        }
    }
}

} // verus!
