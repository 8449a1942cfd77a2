use std::collections::VecDeque;
use vstd::prelude::*;

verus! {

/// What a worker does next.
pub enum Claim<T> {
    /// Run this job to completion, then ask again.
    Run(T),
    /// Nothing is queued yet: wait for a submission or for shutdown.
    Wait,
    /// The pool is shutting down and every job has been handed out: exit.
    Stop,
}

/// The state of the shared job queue.
pub struct QueueView<T> {
    /// Jobs submitted and not yet claimed, oldest first.
    pub pending: Seq<T>,
    /// Whether shutdown has been signalled.
    pub closed: bool,
    /// Every job ever submitted, in submission order.
    pub submitted: Seq<T>,
    /// Every job handed to a worker, in the order handed out.
    pub handed: Seq<T>,
}

/// Each submitted job has been handed out or is still pending, in submission order.
pub open spec fn accounted<T>(v: QueueView<T>) -> bool {
    v.submitted == v.handed + v.pending
}

/// The queue that the workers of a pool compete over: first in, first out; each job
/// goes to exactly one worker.
pub struct JobQueue<T> {
    pending: VecDeque<T>,
    closed: bool,
    handed: Ghost<Seq<T>>,
}

impl<T> View for JobQueue<T> {
    type V = QueueView<T>;

    closed spec fn view(&self) -> QueueView<T> {
        QueueView {
            pending: self.pending@,
            closed: self.closed,
            submitted: self.handed@ + self.pending@,
            handed: self.handed@,
        }
    }
}

impl<T> JobQueue<T> {
    /// Every queue accounts for each job submitted to it.
    pub proof fn lemma_accounted(&self)
        ensures
            accounted(self@),
    {
    }

    /// An open, empty queue.
    pub fn new() -> (r: Self)
        ensures
            r@.pending.len() == 0,
            r@.submitted.len() == 0,
            r@.handed.len() == 0,
            !r@.closed,
            accounted(r@),
    {
        let r = JobQueue {
            pending: VecDeque::new(),
            closed: false,
            handed: Ghost(Seq::empty()),
        };
        assert(r@.submitted =~= Seq::empty());
        r
    }

    /// Enqueues `job` behind every job already pending.
    pub fn submit(&mut self, job: T)
        requires
            !old(self)@.closed,
        ensures
            final(self)@ == (QueueView {
                pending: old(self)@.pending.push(job),
                submitted: old(self)@.submitted.push(job),
                ..old(self)@
            }),
            accounted(final(self)@),
    {
        let ghost before = self@;
        self.pending.push_back(job);
        assert(self@.submitted =~= before.submitted.push(job));
    }

    /// Signals that no more jobs will be submitted.
    pub fn close(&mut self)
        ensures
            final(self)@ == (QueueView { closed: true, ..old(self)@ }),
            accounted(final(self)@),
    {
        self.closed = true;
    }

    /// Whether shutdown has been signalled.
    pub fn is_closed(&self) -> (r: bool)
        ensures
            r == self@.closed,
    {
        self.closed
    }

    /// The number of jobs waiting for a worker.
    pub fn pending_len(&self) -> (r: usize)
        ensures
            r == self@.pending.len(),
    {
        self.pending.len()
    }

    /// A worker's next step: the oldest pending job if there is one; else `Stop` after
    /// shutdown and `Wait` before it. On `Stop` every job ever submitted has been
    /// handed out exactly once, in submission order.
    pub fn next(&mut self) -> (r: Claim<T>)
        ensures
            accounted(final(self)@),
            old(self)@.pending.len() > 0 ==> r == Claim::Run(old(self)@.pending[0])
                && final(self)@ == (QueueView {
                pending: old(self)@.pending.drop_first(),
                handed: old(self)@.handed.push(old(self)@.pending[0]),
                ..old(self)@
            }),
            old(self)@.pending.len() == 0 ==> final(self)@ == old(self)@,
            old(self)@.pending.len() == 0 && old(self)@.closed ==> r is Stop,
            old(self)@.pending.len() == 0 && !old(self)@.closed ==> r is Wait,
            r is Stop ==> final(self)@.handed == final(self)@.submitted,
    {
        let ghost before = self@;
        match self.pending.pop_front() {
            Some(job) => {
                self.handed = Ghost(self.handed@.push(job));
                assert(before.pending =~= seq![job] + self.pending@);
                assert(self@.submitted =~= before.submitted);
                assert(self.pending@ =~= before.pending.drop_first());
                Claim::Run(job)
            },
            None => {
                assert(self@.submitted =~= self.handed@);
                if self.closed {
                    Claim::Stop
                } else {
                    Claim::Wait
                }
            },
        }
    }
}

/// Once shutdown has been signalled and the queue has run dry, the jobs handed to
/// workers are exactly the jobs submitted, each once and in submission order: none
/// dropped, none run twice.
pub proof fn lemma_drained_queue_ran_each_job_once<T>(v: QueueView<T>)
    requires
        accounted(v),
        v.pending.len() == 0,
    ensures
        v.handed == v.submitted,
        v.handed.len() == v.submitted.len(),
{
    assert(v.handed + v.pending =~= v.handed);
}

} // verus!
