//! The pool: a fixed set of workers around a shared FIFO job queue, with
//! verified submission, dispatch and teardown transitions.

use vstd::prelude::*;

verus! {

use vstd::multiset::Multiset;
use crate::worker::{Worker, WorkerState, in_flight};

/// Error from pool construction.
#[derive(Clone, Copy, Debug, PartialEq, Eq, Structural)]
pub enum ThreadPoolError {
    /// A pool of zero workers was requested.
    ZeroSizedPool,
}

/// The abstract state of a pool: its workers, the queue contents, whether
/// submission is still open, and the full history of jobs as they move from
/// submitted through delivered to finished.
pub struct PoolModel {
    /// All workers, indexed by their identity.
    pub workers: Seq<Worker>,
    /// Jobs submitted but not yet taken by any worker, oldest first.
    pub pending: Seq<usize>,
    /// Whether the submission end of the queue is still open.
    pub open: bool,
    /// Every job ever submitted, in submission order.
    pub submitted: Seq<usize>,
    /// Every job handed to a worker, in delivery order.
    pub delivered: Seq<usize>,
    /// Every job that ran to completion, in completion order.
    pub finished: Seq<usize>,
}

impl PoolModel {
    /// The pool's invariant: worker identities are their indices, the
    /// submission history splits into the delivered prefix and the pending
    /// queue, every delivered job is either finished or in flight on exactly
    /// one worker, and a worker terminates only once submission is closed
    /// and the queue has drained.
    pub open spec fn wf(self) -> bool {
        &&& self.workers.len() >= 1
        &&& forall|i: int| 0 <= i < self.workers.len() ==> (#[trigger] self.workers[i]).id == i
        &&& self.submitted == self.delivered + self.pending
        &&& self.delivered.to_multiset() == self.finished.to_multiset().add(
            in_flight(self.workers),
        )
        &&& forall|i: int|
            0 <= i < self.workers.len() && (#[trigger] self.workers[i]).state is Terminated
                ==> self.pending.len() == 0 && !self.open
    }
}

/// What one attempt by a worker to take work from the shared queue yielded.
#[derive(Clone, Copy, Debug, PartialEq, Eq, Structural)]
pub enum Polled {
    /// The oldest pending job was handed to this worker.
    Job { job: usize },
    /// Submission is closed and the queue has drained: the worker exits.
    Disconnected,
    /// Submission is still open but no job is queued: the worker keeps
    /// waiting, and nothing changes.
    WouldBlock,
}

/// How far a worker still is from termination once submission is closed:
/// the measure that makes teardown terminate.
pub open spec fn join_measure(s: WorkerState) -> int {
    match s {
        WorkerState::Polling => 1,
        WorkerState::Executing { .. } => 2,
        WorkerState::Terminated => 0,
    }
}

/// A fixed-size worker pool over a shared FIFO job queue.
///
/// Jobs are the caller's `usize` tokens; the pool records which are pending,
/// which worker is running which, and which have finished, so every delivery
/// and teardown guarantee is stated over those histories.
pub struct ThreadPool {
    workers: Vec<Worker>,
    pending: Vec<usize>,
    open: bool,
    submitted: Vec<usize>,
    delivered: Vec<usize>,
    finished: Vec<usize>,
}

impl View for ThreadPool {
    type V = PoolModel;

    closed spec fn view(&self) -> PoolModel {
        PoolModel {
            workers: self.workers@,
            pending: self.pending@,
            open: self.open,
            submitted: self.submitted@,
            delivered: self.delivered@,
            finished: self.finished@,
        }
    }
}

impl ThreadPool {
    /// The pool's invariant, on the abstract state.
    pub open spec fn wf(self) -> bool {
        self@.wf()
    }

    /// Build a pool of `size` workers around a fresh, empty, open queue.
    ///
    /// Requesting zero workers is the one rejected input and yields
    /// `ZeroSizedPool`; any positive size yields a pool of exactly that many
    /// workers, all polling, with nothing submitted yet.
    pub fn build(size: usize) -> (r: Result<ThreadPool, ThreadPoolError>)
        ensures
            size == 0 <==> r is Err,
            r matches Err(e) ==> e == ThreadPoolError::ZeroSizedPool,
            r matches Ok(p) ==> {
                &&& p.wf()
                &&& p@.workers.len() == size
                &&& forall|i: int|
                    0 <= i < size ==> (#[trigger] p@.workers[i]).state == WorkerState::Polling
                &&& p@.open
                &&& p@.pending == Seq::<usize>::empty()
                &&& p@.submitted == Seq::<usize>::empty()
                &&& p@.delivered == Seq::<usize>::empty()
                &&& p@.finished == Seq::<usize>::empty()
            },
    {
        if size == 0 {
            return Err(ThreadPoolError::ZeroSizedPool);
        }
        let mut workers: Vec<Worker> = Vec::new();
        let mut id: usize = 0;
        while id < size
            invariant
                id <= size,
                workers@.len() == id,
                forall|i: int| 0 <= i < id ==> (#[trigger] workers@[i]).id == i,
                forall|i: int|
                    0 <= i < id ==> (#[trigger] workers@[i]).state == WorkerState::Polling,
            decreases size - id,
        {
            workers.push(Worker::new(id));
            id = id + 1;
        }
        let p = ThreadPool {
            workers,
            pending: Vec::new(),
            open: true,
            submitted: Vec::new(),
            delivered: Vec::new(),
            finished: Vec::new(),
        };
        proof {
            broadcast use vstd::multiset::group_multiset_axioms;
            broadcast use vstd::seq_lib::group_to_multiset_ensures;

            crate::worker::lemma_in_flight_empty(p@.workers);
            assert(p@.submitted =~= p@.delivered + p@.pending);
            assert(p@.delivered.to_multiset() =~= p@.finished.to_multiset().add(
                in_flight(p@.workers),
            ));
        }
        Ok(p)
    }

    /// Build a pool of `size` workers, for callers that treat a zero size as
    /// a programming error rather than a recoverable condition: zero is
    /// excluded outright instead of being reported.
    pub fn new(size: usize) -> (p: ThreadPool)
        requires
            size >= 1,
        ensures
            p.wf(),
            p@.workers.len() == size,
            forall|i: int|
                0 <= i < size ==> (#[trigger] p@.workers[i]).state == WorkerState::Polling,
            p@.open,
            p@.pending == Seq::<usize>::empty(),
            p@.submitted == Seq::<usize>::empty(),
            p@.delivered == Seq::<usize>::empty(),
            p@.finished == Seq::<usize>::empty(),
    {
        match Self::build(size) {
            Ok(p) => p,
            Err(_) => unreached(),
        }
    }

    /// Submit a job: enqueue it on the shared queue, where exactly one
    /// worker will eventually take it. Submission requires that teardown has
    /// not begun; everything but the queue and the submission history is
    /// untouched.
    pub fn execute(&mut self, job: usize)
        requires
            old(self).wf(),
            old(self)@.open,
        ensures
            final(self).wf(),
            final(self)@.pending == old(self)@.pending.push(job),
            final(self)@.submitted == old(self)@.submitted.push(job),
            final(self)@.workers == old(self)@.workers,
            final(self)@.delivered == old(self)@.delivered,
            final(self)@.finished == old(self)@.finished,
            final(self)@.open,
    {
        self.pending.push(job);
        self.submitted.push(job);
        proof {
            assert(self@.submitted =~= self@.delivered + self@.pending);
        }
    }

    /// Close the submission end of the shared queue. This is the first phase
    /// of teardown: no job can be submitted afterwards, every blocked poll
    /// will report disconnection once the queue drains, and nothing already
    /// queued, running or finished is disturbed.
    pub fn close(&mut self)
        requires
            old(self).wf(),
        ensures
            final(self).wf(),
            !final(self)@.open,
            final(self)@.workers == old(self)@.workers,
            final(self)@.pending == old(self)@.pending,
            final(self)@.submitted == old(self)@.submitted,
            final(self)@.delivered == old(self)@.delivered,
            final(self)@.finished == old(self)@.finished,
    {
        self.open = false;
    }

    /// One poll by worker `w`: take exclusive access to the queue's
    /// receiving end, decide, and release it before any job runs.
    ///
    /// If a job is pending, the oldest one is handed to `w`, which starts
    /// executing it. If the queue is empty and closed, `w` terminates. If
    /// the queue is empty but still open, the worker simply keeps waiting.
    /// Whether other workers are executing never matters here: access to the
    /// queue is released before execution, so dispatch is never serialized
    /// behind a running job.
    pub fn poll(&mut self, w: usize) -> (r: Polled)
        requires
            old(self).wf(),
            w < old(self)@.workers.len(),
            old(self)@.workers[w as int].state is Polling,
        ensures
            final(self).wf(),
            final(self)@.submitted == old(self)@.submitted,
            final(self)@.finished == old(self)@.finished,
            final(self)@.open == old(self)@.open,
            final(self)@.workers.len() == old(self)@.workers.len(),
            old(self)@.pending.len() > 0 ==> {
                &&& r == (Polled::Job { job: old(self)@.pending[0] })
                &&& final(self)@.pending == old(self)@.pending.drop_first()
                &&& final(self)@.delivered == old(self)@.delivered.push(old(self)@.pending[0])
                &&& final(self)@.workers == old(self)@.workers.update(
                    w as int,
                    (Worker {
                        id: w,
                        state: WorkerState::Executing { job: old(self)@.pending[0] },
                    }),
                )
            },
            old(self)@.pending.len() == 0 && !old(self)@.open ==> {
                &&& r == Polled::Disconnected
                &&& final(self)@.pending == old(self)@.pending
                &&& final(self)@.delivered == old(self)@.delivered
                &&& final(self)@.workers == old(self)@.workers.update(
                    w as int,
                    (Worker { id: w, state: WorkerState::Terminated }),
                )
            },
            old(self)@.pending.len() == 0 && old(self)@.open ==> {
                &&& r == Polled::WouldBlock
                &&& *final(self) == *old(self)
            },
    {
        let ghost pre = self@;
        if self.pending.len() > 0 {
            let job = self.pending.remove(0);
            self.workers[w] = Worker { id: w, state: WorkerState::Executing { job } };
            self.delivered.push(job);
            proof {
                broadcast use vstd::multiset::group_multiset_axioms;
                broadcast use vstd::seq_lib::group_to_multiset_ensures;

                assert(pre.pending.remove(0) =~= pre.pending.drop_first());
                assert(self@.submitted =~= self@.delivered + self@.pending) by {
                    assert(pre.delivered + pre.pending =~= pre.delivered.push(job)
                        + pre.pending.drop_first());
                }
                let nw = Worker { id: w, state: WorkerState::Executing { job } };
                assert(self@.workers == pre.workers.update(w as int, nw));
                crate::worker::lemma_in_flight_start(pre.workers, w as int, nw);
                assert(pre.delivered.push(job).to_multiset() =~= pre.delivered.to_multiset().insert(
                    job,
                ));
                assert forall|x: usize|
                    self@.delivered.to_multiset().count(x) == self@.finished.to_multiset().add(
                        in_flight(self@.workers),
                    ).count(x) by {
                    assert(pre.delivered.to_multiset().count(x) == pre.finished.to_multiset().count(
                        x,
                    ) + in_flight(pre.workers).count(x));
                    assert(in_flight(self@.workers).count(x) == in_flight(pre.workers).count(x)
                        + Multiset::<usize>::singleton(job).count(x));
                    assert(self@.delivered.to_multiset().count(x) == pre.delivered.to_multiset(
                    ).count(x) + Multiset::<usize>::singleton(job).count(x));
                }
                assert(self@.delivered.to_multiset() =~= self@.finished.to_multiset().add(
                    in_flight(self@.workers),
                ));
                assert forall|i: int|
                    0 <= i < self@.workers.len() && (#[trigger] self@.workers[i]).state
                        is Terminated implies self@.pending.len() == 0 && !self@.open by {
                    assert(pre.workers[i].state is Terminated);
                    assert(pre.pending.len() == 0);
                }
            }
            Polled::Job { job }
        } else if !self.open {
            self.workers[w] = Worker { id: w, state: WorkerState::Terminated };
            proof {
                let nw = Worker { id: w, state: WorkerState::Terminated };
                assert(self@.workers == pre.workers.update(w as int, nw));
                crate::worker::lemma_in_flight_still(pre.workers, w as int, nw);
            }
            Polled::Disconnected
        } else {
            Polled::WouldBlock
        }
    }

    /// Worker `w` finishes the job it was executing: the job joins the
    /// finished history exactly once, and the worker goes back to polling.
    pub fn finish(&mut self, w: usize)
        requires
            old(self).wf(),
            w < old(self)@.workers.len(),
            old(self)@.workers[w as int].state is Executing,
        ensures
            final(self).wf(),
            final(self)@.finished == old(self)@.finished.push(
                old(self)@.workers[w as int].state->job,
            ),
            final(self)@.workers == old(self)@.workers.update(
                w as int,
                (Worker { id: w, state: WorkerState::Polling }),
            ),
            final(self)@.pending == old(self)@.pending,
            final(self)@.submitted == old(self)@.submitted,
            final(self)@.delivered == old(self)@.delivered,
            final(self)@.open == old(self)@.open,
    {
        let ghost pre = self@;
        let st = self.workers[w].state;
        match st {
            WorkerState::Executing { job } => {
                self.workers[w] = Worker { id: w, state: WorkerState::Polling };
                self.finished.push(job);
                proof {
                    broadcast use vstd::multiset::group_multiset_axioms;
                    broadcast use vstd::seq_lib::group_to_multiset_ensures;

                    let nw = Worker { id: w, state: WorkerState::Polling };
                    assert(self@.workers == pre.workers.update(w as int, nw));
                    crate::worker::lemma_in_flight_stop(pre.workers, w as int, nw);
                    assert(pre.finished.push(job).to_multiset() =~= pre.finished.to_multiset(
                    ).insert(job));
                    assert forall|x: usize|
                        self@.delivered.to_multiset().count(x) == self@.finished.to_multiset().add(
                            in_flight(self@.workers),
                        ).count(x) by {
                        assert(pre.delivered.to_multiset().count(x) == pre.finished.to_multiset(
                        ).count(x) + in_flight(pre.workers).count(x));
                        assert(in_flight(pre.workers).count(x) == in_flight(self@.workers).count(x)
                            + Multiset::<usize>::singleton(job).count(x));
                        assert(self@.finished.to_multiset().count(x) == pre.finished.to_multiset(
                        ).count(x) + Multiset::<usize>::singleton(job).count(x));
                    }
                    assert(self@.delivered.to_multiset() =~= self@.finished.to_multiset().add(
                        in_flight(self@.workers),
                    ));
                }
            },
            _ => {
                proof {
                    assert(false);
                }
            },
        }
    }

    /// Wait for worker `w` to exit, submission being already closed: the
    /// worker finishes the job it may be running, keeps taking and finishing
    /// pending jobs, and terminates once the queue is drained. No other
    /// worker is touched, and the wait always terminates because every step
    /// either shortens the queue or brings `w` closer to termination.
    fn join_worker(&mut self, w: usize)
        requires
            old(self).wf(),
            !old(self)@.open,
            w < old(self)@.workers.len(),
        ensures
            final(self).wf(),
            !final(self)@.open,
            final(self)@.workers.len() == old(self)@.workers.len(),
            final(self)@.submitted == old(self)@.submitted,
            final(self)@.workers[w as int].state is Terminated,
            forall|i: int|
                0 <= i < final(self)@.workers.len() && i != w ==> final(self)@.workers[i] == old(
                    self,
                )@.workers[i],
    {
        loop
            invariant
                self.wf(),
                !self@.open,
                w < self@.workers.len(),
                self@.workers.len() == old(self)@.workers.len(),
                self@.submitted == old(self)@.submitted,
                forall|i: int|
                    0 <= i < self@.workers.len() && i != w ==> self@.workers[i] == old(
                        self,
                    )@.workers[i],
            decreases 2 * self@.pending.len() + join_measure(self@.workers[w as int].state),
        {
            let st = self.workers[w].state;
            match st {
                WorkerState::Polling => {
                    let _r = self.poll(w);
                },
                WorkerState::Executing { .. } => {
                    self.finish(w);
                },
                WorkerState::Terminated => {
                    return;
                },
            }
        }
    }

    /// Teardown: the blocking, terminating shutdown protocol. Submission is
    /// closed first, so that no worker can block forever on the queue; then
    /// every worker, in construction order, is waited for until it exits.
    ///
    /// On return every worker has terminated, the queue has drained, every
    /// job ever submitted was delivered — in submission order — and every
    /// delivered job ran to completion: nothing submitted before teardown is
    /// lost.
    pub fn shutdown(&mut self)
        requires
            old(self).wf(),
        ensures
            final(self).wf(),
            !final(self)@.open,
            final(self)@.workers.len() == old(self)@.workers.len(),
            forall|i: int|
                0 <= i < final(self)@.workers.len() ==> (#[trigger] final(self)@.workers[i]).state
                    is Terminated,
            final(self)@.pending.len() == 0,
            final(self)@.submitted == old(self)@.submitted,
            final(self)@.delivered == old(self)@.submitted,
            final(self)@.finished.to_multiset() == old(self)@.submitted.to_multiset(),
    {
        self.close();
        let n = self.workers.len();
        let mut w: usize = 0;
        while w < n
            invariant
                self.wf(),
                !self@.open,
                self@.workers.len() == n,
                w <= n,
                self@.submitted == old(self)@.submitted,
                forall|i: int|
                    0 <= i < w ==> (#[trigger] self@.workers[i]).state is Terminated,
            decreases n - w,
        {
            self.join_worker(w);
            w = w + 1;
        }
        proof {
            broadcast use vstd::multiset::group_multiset_axioms;

            assert(self@.workers[0].state is Terminated);
            assert(self@.pending.len() == 0);
            assert(self@.delivered =~= self@.submitted) by {
                assert(self@.delivered + self@.pending =~= self@.delivered);
            }
            crate::worker::lemma_in_flight_empty(self@.workers);
            assert(self@.finished.to_multiset() =~= self@.finished.to_multiset().add(
                Multiset::<usize>::empty(),
            ));
        }
    }

    /// One dispatch round with every worker polling and at least as many
    /// pending jobs as workers: each worker takes one job, and all of them
    /// end up executing at the same time, none waiting for another to
    /// finish. This is exactly what the poll discipline buys: a worker
    /// releases the queue's receiving end before running its job, so an
    /// executing worker never stands between the queue and the next one.
    pub fn dispatch_to_all(&mut self)
        requires
            old(self).wf(),
            forall|i: int|
                0 <= i < old(self)@.workers.len() ==> (#[trigger] old(self)@.workers[i]).state
                    is Polling,
            old(self)@.pending.len() >= old(self)@.workers.len(),
        ensures
            final(self).wf(),
            final(self)@.workers.len() == old(self)@.workers.len(),
            forall|i: int|
                0 <= i < final(self)@.workers.len() ==> (#[trigger] final(self)@.workers[i]).state
                    == (WorkerState::Executing { job: old(self)@.pending[i] }),
            final(self)@.pending == old(self)@.pending.skip(old(self)@.workers.len() as int),
            final(self)@.delivered == old(self)@.delivered + old(self)@.pending.take(
                old(self)@.workers.len() as int,
            ),
            final(self)@.submitted == old(self)@.submitted,
            final(self)@.finished == old(self)@.finished,
            final(self)@.open == old(self)@.open,
    {
        let n = self.workers.len();
        proof {
            assert(old(self)@.pending.skip(0) =~= old(self)@.pending);
            assert(old(self)@.delivered + old(self)@.pending.take(0) =~= old(self)@.delivered);
        }
        let mut w: usize = 0;
        while w < n
            invariant
                self.wf(),
                self@.workers.len() == n,
                w <= n,
                self@.submitted == old(self)@.submitted,
                self@.finished == old(self)@.finished,
                self@.open == old(self)@.open,
                old(self)@.pending.len() >= n,
                self@.pending == old(self)@.pending.skip(w as int),
                self@.delivered == old(self)@.delivered + old(self)@.pending.take(w as int),
                forall|i: int|
                    0 <= i < w ==> (#[trigger] self@.workers[i]).state == (WorkerState::Executing {
                        job: old(self)@.pending[i],
                    }),
                forall|i: int|
                    w <= i < n ==> (#[trigger] self@.workers[i]).state is Polling,
            decreases n - w,
        {
            let _r = self.poll(w);
            proof {
                assert(old(self)@.pending.skip(w as int).drop_first() =~= old(self)@.pending.skip(
                    w as int + 1,
                ));
                assert(old(self)@.pending.skip(w as int)[0] == old(self)@.pending[w as int]);
                assert((old(self)@.delivered + old(self)@.pending.take(w as int)).push(
                    old(self)@.pending[w as int],
                ) =~= old(self)@.delivered + old(self)@.pending.take(w as int + 1));
            }
            w = w + 1;
        }
    }

    /// The number of workers, fixed at construction.
    pub fn worker_count(&self) -> (n: usize)
        ensures
            n == self@.workers.len(),
    {
        self.workers.len()
    }

    /// The lifecycle state of worker `w`.
    pub fn worker_state(&self, w: usize) -> (s: WorkerState)
        requires
            w < self@.workers.len(),
        ensures
            s == self@.workers[w as int].state,
    {
        self.workers[w].state
    }

    /// The identity of worker `w`: its index, unique and stable.
    pub fn worker_id(&self, w: usize) -> (id: usize)
        requires
            self.wf(),
            w < self@.workers.len(),
        ensures
            id == w,
    {
        self.workers[w].id
    }

    /// Whether submission is still open.
    pub fn is_open(&self) -> (b: bool)
        ensures
            b == self@.open,
    {
        self.open
    }

    /// How many submitted jobs no worker has taken yet.
    pub fn pending_count(&self) -> (n: usize)
        ensures
            n == self@.pending.len(),
    {
        self.pending.len()
    }

    /// Every job ever submitted, in submission order.
    pub fn submitted_jobs(&self) -> (r: &Vec<usize>)
        ensures
            r@ == self@.submitted,
    {
        &self.submitted
    }

    /// Every job handed to a worker, in delivery order.
    pub fn delivered_jobs(&self) -> (r: &Vec<usize>)
        ensures
            r@ == self@.delivered,
    {
        &self.delivered
    }

    /// Every job that ran to completion, in completion order.
    pub fn finished_jobs(&self) -> (r: &Vec<usize>)
        ensures
            r@ == self@.finished,
    {
        &self.finished
    }
}

/// Job accounting: in any well-formed pool state, each submission of a job
/// token is, counted with multiplicity, in exactly one place — still
/// pending in the queue, in flight on a worker, or finished.
pub proof fn lemma_job_accounting(m: PoolModel, job: usize)
    requires
        m.wf(),
    ensures
        m.submitted.to_multiset().count(job) == m.pending.to_multiset().count(job) + in_flight(
            m.workers,
        ).count(job) + m.finished.to_multiset().count(job),
{
    broadcast use vstd::multiset::group_multiset_axioms;

    vstd::seq_lib::lemma_multiset_commutative(m.delivered, m.pending);
    assert(m.submitted.to_multiset() == (m.delivered + m.pending).to_multiset());
    assert(m.submitted.to_multiset().count(job) == m.delivered.to_multiset().count(job)
        + m.pending.to_multiset().count(job));
    assert(m.delivered.to_multiset().count(job) == m.finished.to_multiset().count(job) + in_flight(
        m.workers,
    ).count(job));
}

/// Every job is invoked exactly once: with distinct job tokens, once the
/// queue has drained and no worker is still executing, a job that was
/// submitted has finished exactly once, and a job that was never submitted
/// has never run — no job is lost and none runs twice.
pub proof fn lemma_each_job_exactly_once(m: PoolModel, job: usize)
    requires
        m.wf(),
        m.submitted.no_duplicates(),
        m.pending.len() == 0,
        forall|i: int| 0 <= i < m.workers.len() ==> !((#[trigger] m.workers[i]).state is Executing),
    ensures
        m.submitted.contains(job) ==> m.finished.to_multiset().count(job) == 1,
        !m.submitted.contains(job) ==> m.finished.to_multiset().count(job) == 0,
{
    broadcast use vstd::multiset::group_multiset_axioms;
    broadcast use vstd::seq_lib::group_to_multiset_ensures;

    lemma_job_accounting(m, job);
    crate::worker::lemma_in_flight_empty(m.workers);
    assert(m.pending.to_multiset().count(job) == 0);
    if m.submitted.contains(job) {
        m.submitted.lemma_multiset_has_no_duplicates();
        assert(m.submitted.to_multiset().count(job) == 1);
    } else {
        assert(m.submitted.to_multiset().count(job) == 0);
    }
}

/// FIFO delivery: jobs are handed to workers in submission order — the
/// delivered history is always a prefix of the submission history.
pub proof fn lemma_fifo_delivery(m: PoolModel)
    requires
        m.wf(),
    ensures
        m.delivered.len() <= m.submitted.len(),
        m.delivered == m.submitted.take(m.delivered.len() as int),
{
    assert(m.submitted.take(m.delivered.len() as int) =~= m.delivered);
}

} // verus!
