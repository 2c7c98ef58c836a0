//! Per-worker lifecycle state and the pool-wide in-flight job accounting.

use vstd::prelude::*;

verus! {

use vstd::multiset::Multiset;

/// The observable lifecycle state of one worker.
///
/// A worker loops between `Polling` (waiting to take the next job from the
/// shared queue) and `Executing` (running the job it took, with its access
/// to the queue already released), until a poll finds the queue closed and
/// empty, after which the worker is `Terminated` and its thread can be
/// joined.
#[derive(Clone, Copy, Debug, PartialEq, Eq, Structural)]
pub enum WorkerState {
    /// Waiting to take the next job from the shared queue.
    Polling,
    /// Running the identified job; the queue is not held meanwhile.
    Executing { job: usize },
    /// The worker's loop has returned; it only remains to be joined.
    Terminated,
}

/// One worker: a small-integer identity, unique and stable within its pool,
/// together with its lifecycle state.
#[derive(Clone, Copy, Debug, PartialEq, Eq, Structural)]
pub struct Worker {
    /// The worker's index within its pool, fixed at construction.
    pub id: usize,
    /// Where the worker stands in its polling/executing loop.
    pub state: WorkerState,
}

impl Worker {
    /// A fresh worker starts out polling the (possibly still empty) queue.
    pub fn new(id: usize) -> (w: Worker)
        ensures
            w.id == id,
            w.state == WorkerState::Polling,
    {
        Worker { id, state: WorkerState::Polling }
    }
}

/// The zero- or one-element multiset of the job a single worker is running.
pub open spec fn running_job(s: WorkerState) -> Multiset<usize> {
    match s {
        WorkerState::Executing { job } => Multiset::empty().insert(job),
        _ => Multiset::empty(),
    }
}

/// The multiset of all jobs currently being executed by the given workers.
pub open spec fn in_flight(ws: Seq<Worker>) -> Multiset<usize>
    decreases ws.len(),
{
    if ws.len() == 0 {
        Multiset::empty()
    } else {
        in_flight(ws.drop_last()).add(running_job(ws.last().state))
    }
}

/// Replacing one worker exchanges exactly that worker's running job in the
/// pool-wide in-flight multiset.
pub proof fn lemma_in_flight_update(ws: Seq<Worker>, i: int, w: Worker)
    requires
        0 <= i < ws.len(),
    ensures
        in_flight(ws.update(i, w)).add(running_job(ws[i].state)) == in_flight(ws).add(
            running_job(w.state),
        ),
    decreases ws.len(),
{
    broadcast use vstd::multiset::group_multiset_axioms;

    let upd = ws.update(i, w);
    if i == ws.len() - 1 {
        assert(upd.drop_last() =~= ws.drop_last());
        assert(in_flight(upd).add(running_job(ws[i].state)) =~= in_flight(ws).add(
            running_job(w.state),
        ));
    } else {
        let dl = ws.drop_last();
        assert(upd.drop_last() =~= dl.update(i, w));
        assert(upd.last() == ws.last());
        assert(dl[i] == ws[i]);
        lemma_in_flight_update(dl, i, w);
        assert(in_flight(upd) == in_flight(dl.update(i, w)).add(running_job(ws.last().state)));
        assert(in_flight(dl.update(i, w)).add(running_job(ws[i].state)) == in_flight(dl).add(
            running_job(w.state),
        ));
        assert(in_flight(upd).add(running_job(ws[i].state)) =~= in_flight(ws).add(
            running_job(w.state),
        ));
    }
}

/// A worker that was not executing starts executing a job: that job joins
/// the in-flight multiset.
pub proof fn lemma_in_flight_start(ws: Seq<Worker>, i: int, nw: Worker)
    requires
        0 <= i < ws.len(),
        !(ws[i].state is Executing),
        nw.state is Executing,
    ensures
        in_flight(ws.update(i, nw)) == in_flight(ws).insert(nw.state->job),
{
    broadcast use vstd::multiset::group_multiset_axioms;

    lemma_in_flight_update(ws, i, nw);
    let m1 = in_flight(ws.update(i, nw));
    let m2 = in_flight(ws);
    let job = nw.state->job;
    assert forall|x: usize| m1.count(x) == m2.insert(job).count(x) by {
        assert(m1.add(running_job(ws[i].state)).count(x) == m2.add(running_job(nw.state)).count(
            x,
        ));
        assert(running_job(ws[i].state).count(x) == 0);
        assert(running_job(nw.state).count(x) == Multiset::<usize>::singleton(job).count(x));
        assert(m2.insert(job).count(x) == m2.count(x) + Multiset::<usize>::singleton(job).count(
            x,
        ));
    }
    assert(m1 =~= m2.insert(job));
}

/// A worker that was executing a job stops: that job leaves the in-flight
/// multiset.
pub proof fn lemma_in_flight_stop(ws: Seq<Worker>, i: int, nw: Worker)
    requires
        0 <= i < ws.len(),
        ws[i].state is Executing,
        !(nw.state is Executing),
    ensures
        in_flight(ws) == in_flight(ws.update(i, nw)).insert(ws[i].state->job),
{
    broadcast use vstd::multiset::group_multiset_axioms;

    lemma_in_flight_update(ws, i, nw);
    let m1 = in_flight(ws.update(i, nw));
    let m2 = in_flight(ws);
    let job = ws[i].state->job;
    assert forall|x: usize| m2.count(x) == m1.insert(job).count(x) by {
        assert(m1.add(running_job(ws[i].state)).count(x) == m2.add(running_job(nw.state)).count(
            x,
        ));
        assert(running_job(nw.state).count(x) == 0);
        assert(running_job(ws[i].state).count(x) == Multiset::<usize>::singleton(job).count(x));
        assert(m1.insert(job).count(x) == m1.count(x) + Multiset::<usize>::singleton(job).count(
            x,
        ));
    }
    assert(m2 =~= m1.insert(job));
}

/// A worker moves between two non-executing states: nothing changes in the
/// in-flight multiset.
pub proof fn lemma_in_flight_still(ws: Seq<Worker>, i: int, nw: Worker)
    requires
        0 <= i < ws.len(),
        !(ws[i].state is Executing),
        !(nw.state is Executing),
    ensures
        in_flight(ws.update(i, nw)) == in_flight(ws),
{
    broadcast use vstd::multiset::group_multiset_axioms;

    lemma_in_flight_update(ws, i, nw);
    let m1 = in_flight(ws.update(i, nw));
    let m2 = in_flight(ws);
    assert forall|x: usize| m1.count(x) == m2.count(x) by {
        assert(m1.add(running_job(ws[i].state)).count(x) == m2.add(running_job(nw.state)).count(
            x,
        ));
        assert(running_job(ws[i].state).count(x) == 0);
        assert(running_job(nw.state).count(x) == 0);
    }
    assert(m1 =~= m2);
}

/// When no worker is executing, nothing is in flight.
pub proof fn lemma_in_flight_empty(ws: Seq<Worker>)
    requires
        forall|i: int| 0 <= i < ws.len() ==> !((#[trigger] ws[i]).state is Executing),
    ensures
        in_flight(ws) == Multiset::<usize>::empty(),
    decreases ws.len(),
{
    broadcast use vstd::multiset::group_multiset_axioms;

    if ws.len() > 0 {
        lemma_in_flight_empty(ws.drop_last());
        assert(ws.last() == ws[ws.len() - 1]);
        assert(in_flight(ws) =~= Multiset::<usize>::empty());
    }
}

} // verus!
