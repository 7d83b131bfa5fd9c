//! Bookkeeping of the worker pool: which job goes to which free worker, and when the
//! render is over.
//!
//! A fixed number of workers render rows side by side. Each holds at most one job, so no
//! more rows than there are workers are ever on their way back; a channel with that many
//! places therefore never makes a worker wait for good. Every row that comes in brings
//! the count of rows still to come down by one, and the render is finished exactly when
//! that count reaches zero.

use vstd::prelude::*;
use crate::schedule::{full_schedule, lemma_schedule_shape, Job, Schedule, PASSES};

verus! {

/// What to do with the worker that has just handed in a row.
#[derive(Clone, Copy, Debug, PartialEq, Eq, Structural)]
pub enum Next {
    /// Give it this job.
    Dispatch(Job),
    /// Nothing is left for it; other workers are still rendering.
    Retire,
    /// Nothing is left for it, and it was the last one at work: the render is complete.
    Finished,
}

/// The jobs not yet given out and the number of workers at work.
#[derive(Debug)]
pub struct Pool {
    schedule: Schedule,
    workers: usize,
    running: usize,
}

impl Pool {
    /// The jobs that no worker has been given yet, next one first.
    pub closed spec fn pending(&self) -> Seq<Job> {
        self.schedule@
    }

    /// The number of jobs given out so far.
    pub closed spec fn given_out(&self) -> nat {
        self.schedule.handed_out()
    }

    /// The number of rows of the picture.
    pub closed spec fn spec_rows(&self) -> usize {
        self.schedule.spec_rows()
    }

    /// The size of the pool.
    pub closed spec fn spec_workers(&self) -> usize {
        self.workers
    }

    /// The number of workers that hold a job.
    pub closed spec fn spec_running(&self) -> usize {
        self.running
    }

    /// The number of rows that have not come in yet: those of the jobs still pending and
    /// those that workers are rendering.
    pub open spec fn rows_to_come(&self) -> nat {
        self.pending().len() + self.spec_running() as nat
    }

    /// The schedule is in order and no more workers are at work than the pool has.
    #[verifier::type_invariant]
    pub closed spec fn wf(&self) -> bool {
        &&& self.schedule.wf()
        &&& self.running <= self.workers
    }

    /// In a pool in order the rows under way never outnumber the workers.
    pub proof fn lemma_backpressure(&self)
        requires
            self.wf(),
        ensures
            self.spec_running() <= self.spec_workers(),
    {
    }

    /// The jobs are given out in the order of the schedule, each once: what is pending is
    /// the whole schedule without the jobs given out so far.
    pub proof fn lemma_pending(&self)
        requires
            self.wf(),
        ensures
            self.given_out() <= full_schedule(self.spec_rows()).len(),
            self.pending() == full_schedule(self.spec_rows()).skip(self.given_out() as int),
    {
        self.schedule.lemma_view();
    }

    /// A pool of `workers` idle workers for a render of `rows` rows.
    pub fn new(rows: usize, workers: usize) -> (pool: Pool)
        ensures
            pool.wf(),
            pool.pending() == full_schedule(rows),
            pool.rows_to_come() == PASSES * rows,
            pool.given_out() == 0,
            pool.spec_rows() == rows,
            pool.spec_workers() == workers,
            pool.spec_running() == 0,
    {
        proof {
            lemma_schedule_shape(rows);
        }
        Pool { schedule: Schedule::new(rows), workers, running: 0 }
    }

    /// The number of rows of the picture.
    #[verifier::when_used_as_spec(spec_rows)]
    pub fn rows(&self) -> (n: usize)
        ensures
            n == self.spec_rows(),
    {
        self.schedule.rows()
    }

    /// The size of the pool.
    #[verifier::when_used_as_spec(spec_workers)]
    pub fn workers(&self) -> (n: usize)
        ensures
            n == self.spec_workers(),
    {
        self.workers
    }

    /// The number of workers that hold a job.
    #[verifier::when_used_as_spec(spec_running)]
    pub fn running(&self) -> (n: usize)
        ensures
            n == self.spec_running(),
    {
        self.running
    }

    /// The number of jobs that `start` hands out: one for each idle worker, as far as the
    /// jobs go.
    pub open spec fn startable(&self) -> int {
        let idle = self.spec_workers() - self.spec_running();
        if idle <= self.pending().len() {
            idle
        } else {
            self.pending().len() as int
        }
    }

    /// Hands the next jobs to the idle workers, one each.
    pub fn start(&mut self) -> (jobs: Vec<Job>)
        ensures
            final(self).wf(),
            final(self).spec_rows() == old(self).spec_rows(),
            final(self).spec_workers() == old(self).spec_workers(),
            jobs@ == old(self).pending().take(old(self).startable()),
            forall|i: int| 0 <= i < jobs@.len() ==> (#[trigger] jobs@[i]).row < old(self).spec_rows(),
            final(self).pending() == old(self).pending().skip(old(self).startable()),
            final(self).given_out() == old(self).given_out() + old(self).startable(),
            final(self).spec_running() == old(self).spec_running() + old(self).startable(),
            final(self).rows_to_come() == old(self).rows_to_come(),
    {
        proof {
            use_type_invariant(&*self);
        }
        let mut jobs: Vec<Job> = Vec::new();
        while self.running < self.workers
            invariant
                self.wf(),
                self.spec_rows() == old(self).spec_rows(),
                self.workers == old(self).workers,
                forall|i: int| 0 <= i < jobs@.len() ==> (#[trigger] jobs@[i]).row < old(self).spec_rows(),
                self.running == old(self).running + jobs@.len(),
                self.given_out() == old(self).given_out() + jobs@.len(),
                jobs@.len() <= old(self).startable(),
                jobs@ == old(self).pending().take(jobs@.len() as int),
                self.pending() == old(self).pending().skip(jobs@.len() as int),
            ensures
                jobs@.len() == old(self).startable(),
            decreases self.workers - self.running,
        {
            match self.schedule.next() {
                Some(job) => {
                    proof {
                        let before = jobs@.len() as int;
                        assert(old(self).pending().take(before + 1) =~= old(self).pending().take(
                            before,
                        ).push(job));
                        assert(old(self).pending().skip(before).skip(1) =~= old(
                            self,
                        ).pending().skip(before + 1));
                    }
                    jobs.push(job);
                    self.running = self.running + 1;
                },
                None => {
                    break ;
                },
            }
        }
        jobs
    }

    /// Takes note that a worker has handed in its row, and says what it does next: the
    /// next job if one is left; else it retires, and the render is finished when it was
    /// the last one at work.
    pub fn row_finished(&mut self) -> (next: Next)
        requires
            old(self).spec_running() > 0,
        ensures
            final(self).wf(),
            final(self).spec_rows() == old(self).spec_rows(),
            final(self).spec_workers() == old(self).spec_workers(),
            old(self).pending().len() > 0 ==> {
                &&& next == Next::Dispatch(old(self).pending()[0])
                &&& old(self).pending()[0].row < old(self).spec_rows()
                &&& final(self).pending() == old(self).pending().skip(1)
                &&& final(self).given_out() == old(self).given_out() + 1
                &&& final(self).spec_running() == old(self).spec_running()
            },
            old(self).pending().len() == 0 ==> {
                &&& final(self).pending() == old(self).pending()
                &&& final(self).given_out() == old(self).given_out()
                &&& final(self).spec_running() == old(self).spec_running() - 1
                &&& next == if old(self).spec_running() == 1 {
                    Next::Finished
                } else {
                    Next::Retire
                }
            },
            final(self).rows_to_come() == old(self).rows_to_come() - 1,
            next == Next::Finished <==> final(self).rows_to_come() == 0,
    {
        proof {
            use_type_invariant(&*self);
        }
        match self.schedule.next() {
            Some(job) => Next::Dispatch(job),
            None => {
                self.running = self.running - 1;
                if self.running == 0 {
                    Next::Finished
                } else {
                    Next::Retire
                }
            },
        }
    }
}

} // verus!
