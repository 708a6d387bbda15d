//! The engine's scheduler: a bounded first-in-first-out job queue. The
//! host's workers drain it one job at a time; a full queue refuses the
//! submission.

use vstd::prelude::*;

use crate::engine_models::{ExecutionLimits, ExecutionRequest};
use crate::errors::EngineError;
use crate::metrics::MetricsRegistry;

verus! {

/// One accepted job, ready for a worker.
#[derive(Clone)]
pub struct QueuedJob {
    pub id: String,
    pub tenant_id: String,
    pub request: ExecutionRequest,
    pub limits: ExecutionLimits,
}

/// The bounded job queue, oldest job first.
pub struct Scheduler {
    pub jobs: Vec<QueuedJob>,
    pub capacity: usize,
}

impl Scheduler {
    /// An empty queue of the given capacity; a queue that can never hold
    /// a job would be useless, so the capacity is at least one.
    pub fn new(capacity: usize) -> (r: Scheduler)
        requires
            capacity >= 1,
        ensures
            r.jobs@.len() == 0,
            r.capacity == capacity,
    {
        Scheduler { jobs: Vec::new(), capacity }
    }

    /// Accepts a job at the back of the queue, counting the submission,
    /// unless the queue is full.
    pub fn submit(&mut self, job: QueuedJob, metrics: &mut MetricsRegistry) -> (r: Result<
        (),
        EngineError,
    >)
        ensures
            final(self).capacity == old(self).capacity,
            if old(self).jobs@.len() >= old(self).capacity {
                &&& r matches Err(e) && e is QueueFull
                &&& final(self).jobs@ == old(self).jobs@
                &&& *final(metrics) == *old(metrics)
            } else {
                &&& r is Ok
                &&& final(self).jobs@ == old(self).jobs@.push(job)
                &&& *final(metrics) == (MetricsRegistry {
                    submitted_total: crate::metrics::counter_inc(old(metrics).submitted_total),
                    queue_depth: crate::metrics::counter_inc(old(metrics).queue_depth),
                    ..*old(metrics)
                })
            },
    {
        if self.jobs.len() >= self.capacity {
            return Err(EngineError::QueueFull);
        }
        self.jobs.push(job);
        metrics.submitted();
        Ok(())
    }

    /// Hands out the oldest job, if any.
    pub fn receive(&mut self) -> (r: Option<QueuedJob>)
        ensures
            final(self).capacity == old(self).capacity,
            match r {
                Some(job) => old(self).jobs@.len() > 0 && job == old(self).jobs@[0]
                    && final(self).jobs@ == old(self).jobs@.drop_first(),
                None => old(self).jobs@.len() == 0 && final(self).jobs@ == old(self).jobs@,
            },
    {
        if self.jobs.len() == 0 {
            return None;
        }
        let job = self.jobs.remove(0);
        proof {
            assert(final(self).jobs@ =~= old(self).jobs@.drop_first());
        }
        Some(job)
    }

    /// How many jobs wait.
    pub fn depth(&self) -> (r: usize)
        ensures
            r == self.jobs@.len(),
    {
        self.jobs.len()
    }
}

} // verus!
