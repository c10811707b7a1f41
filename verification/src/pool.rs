//! The worker pool's shared state, as data: a FIFO queue of job handles
//! with a close flag, and the admission rule for the pool's size.  Threads,
//! locks and blocking live outside; they guard a value of this type and call
//! these methods under the lock, so the queue's discipline — first in,
//! first out, each job taken once — is proved here.

use vstd::prelude::*;

verus! {

/// Why a pool could not be built: a pool of zero workers serves nothing.
#[derive(Clone, Copy, Debug, PartialEq, Eq, Structural)]
pub enum PoolError {
    InvalidSize,
}

/// What a worker finds when it asks for work: a job to run, nothing yet
/// (keep waiting), or a closed and empty queue (shut down).
#[derive(Clone, Copy, Debug, PartialEq, Eq, Structural)]
pub enum TakeResult {
    Run(u64),
    Wait,
    Shutdown,
}

/// The shared job queue: pending job handles in submission order, and
/// whether the submitting side is gone.
pub struct JobQueue {
    jobs: Vec<u64>,
    closed: bool,
}

/// The mathematical shadow of a [`JobQueue`].
pub ghost struct QueueModel {
    pub jobs: Seq<u64>,
    pub closed: bool,
}

impl View for JobQueue {
    type V = QueueModel;

    closed spec fn view(&self) -> QueueModel {
        QueueModel { jobs: self.jobs@, closed: self.closed }
    }
}

impl JobQueue {
    /// An open, empty queue.
    pub fn new() -> (r: JobQueue)
        ensures
            r@.jobs == Seq::<u64>::empty(),
            !r@.closed,
    {
        let jobs: Vec<u64> = Vec::new();
        proof {
            assert(jobs@ =~= Seq::<u64>::empty());
        }
        JobQueue { jobs, closed: false }
    }

    /// How many jobs wait.
    pub fn pending(&self) -> (r: usize)
        ensures
            r == self@.jobs.len(),
    {
        self.jobs.len()
    }

    /// Whether the queue was closed.
    pub fn is_closed(&self) -> (r: bool)
        ensures
            r == self@.closed,
    {
        self.closed
    }

    /// Enqueues a job behind every earlier one.  On a closed queue the job
    /// is dropped and the submission reports failure; it never tears the
    /// queue down.
    pub fn submit(&mut self, job: u64) -> (ok: bool)
        ensures
            final(self)@.closed == old(self)@.closed,
            old(self)@.closed ==> !ok && final(self)@.jobs == old(self)@.jobs,
            !old(self)@.closed ==> ok && final(self)@.jobs == old(self)@.jobs.push(job),
    {
        if self.closed {
            return false;
        }
        self.jobs.push(job);
        true
    }

    /// Marks the submitting side gone; pending jobs stay to be taken.
    pub fn close(&mut self)
        ensures
            final(self)@.jobs == old(self)@.jobs,
            final(self)@.closed,
    {
        self.closed = true;
    }

    /// Hands out the oldest pending job.  An empty open queue says to keep
    /// waiting; an empty closed queue says to shut down.
    pub fn take(&mut self) -> (r: TakeResult)
        ensures
            final(self)@.closed == old(self)@.closed,
            old(self)@.jobs.len() > 0 ==> r == TakeResult::Run(old(self)@.jobs[0]) && final(self)@.jobs
                == old(self)@.jobs.drop_first(),
            old(self)@.jobs.len() == 0 ==> final(self)@.jobs == old(self)@.jobs && r == (
            if old(self)@.closed {
                TakeResult::Shutdown
            } else {
                TakeResult::Wait
            }),
    {
        if self.jobs.len() > 0 {
            let job = self.jobs.remove(0);
            proof {
                assert(self.jobs@ =~= old(self)@.jobs.drop_first());
            }
            TakeResult::Run(job)
        } else if self.closed {
            TakeResult::Shutdown
        } else {
            TakeResult::Wait
        }
    }
}

/// Enqueues every job of `jobs`, in order, on an open queue.
pub fn submit_all(q: &mut JobQueue, jobs: &Vec<u64>)
    requires
        !old(q)@.closed,
    ensures
        !final(q)@.closed,
        final(q)@.jobs == old(q)@.jobs + jobs@,
{
    let mut i: usize = 0;
    proof {
        assert(q@.jobs =~= old(q)@.jobs + jobs@.take(0));
    }
    while i < jobs.len()
        invariant
            i <= jobs@.len(),
            !q@.closed,
            q@.jobs == old(q)@.jobs + jobs@.take(i as int),
        decreases jobs.len() - i,
    {
        q.submit(jobs[i]);
        proof {
            assert(old(q)@.jobs + jobs@.take(i as int) + seq![jobs@[i as int]] =~= old(q)@.jobs
                + jobs@.take(i + 1));
        }
        i = i + 1;
    }
    proof {
        assert(jobs@.take(jobs@.len() as int) =~= jobs@);
    }
}

/// Takes until the queue is empty: every pending job comes out, in
/// submission order, each exactly once.
pub fn drain_all(q: &mut JobQueue) -> (r: Vec<u64>)
    ensures
        r@ == old(q)@.jobs,
        final(q)@.jobs.len() == 0,
        final(q)@.closed == old(q)@.closed,
{
    let mut out: Vec<u64> = Vec::new();
    proof {
        assert(out@ + q@.jobs =~= old(q)@.jobs);
    }
    while q.pending() > 0
        invariant
            out@ + q@.jobs == old(q)@.jobs,
            q@.closed == old(q)@.closed,
        decreases q@.jobs.len(),
    {
        let ghost before = q@.jobs;
        match q.take() {
            TakeResult::Run(job) => {
                out.push(job);
                proof {
                    assert(out@ + q@.jobs =~= old(q)@.jobs);
                }
            },
            _ => {},
        }
    }
    proof {
        assert(out@ =~= old(q)@.jobs);
    }
    out
}

/// The admission rule for building a pool: a positive size yields the ids
/// of exactly that many workers, zero is refused.
pub fn pool_plan(size: usize) -> (r: Result<Vec<usize>, PoolError>)
    ensures
        match r {
            Ok(ids) => size > 0 && ids@.len() == size && (forall|i: int|
                0 <= i < size ==> ids@[i] == i),
            Err(e) => size == 0 && e == PoolError::InvalidSize,
        },
{
    if size == 0 {
        return Err(PoolError::InvalidSize);
    }
    let mut ids: Vec<usize> = Vec::new();
    let mut id: usize = 0;
    while id < size
        invariant
            id <= size,
            ids@.len() == id,
            forall|i: int| 0 <= i < id ==> ids@[i] == i,
        decreases size - id,
    {
        ids.push(id);
        id = id + 1;
    }
    Ok(ids)
}

/// Submitting a batch of jobs to a queue that held `pending` and then
/// draining it executes each job exactly once: the drained sequence is the
/// pending jobs followed by the submitted ones, so none is dropped, none
/// is run twice, and submission order is kept.
pub proof fn lemma_jobs_executed_exactly_once(pending: Seq<u64>, submitted: Seq<u64>)
    ensures
        (pending + submitted).len() == pending.len() + submitted.len(),
        forall|i: int|
            0 <= i < submitted.len() ==> (pending + submitted)[pending.len() + i] == submitted[i],
        (pending + submitted).to_multiset() == pending.to_multiset().add(submitted.to_multiset()),
{
    vstd::seq_lib::lemma_multiset_commutative(pending, submitted);
}

} // verus!
