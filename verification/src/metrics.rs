//! The engine's metrics: five counters and the queue-depth gauge, with the
//! exact text of the rendered exposition format.

use vstd::prelude::*;

use crate::text::{dec_str_of, u64_to_dec};

verus! {

/// Counters of submitted, started, completed, failed, and timed-out
/// executions, and the queue-depth gauge. Counters wrap at the 64-bit
/// boundary; the gauge never goes below zero.
#[derive(Clone, Copy, PartialEq, Eq, Structural)]
pub struct MetricsRegistry {
    pub submitted_total: u64,
    pub started_total: u64,
    pub completed_total: u64,
    pub failed_total: u64,
    pub timed_out_total: u64,
    pub queue_depth: u64,
}

/// Increment wrapping at the 64-bit boundary.
pub open spec fn counter_inc(x: u64) -> u64 {
    if x == u64::MAX {
        0
    } else {
        (x + 1) as u64
    }
}

/// The exact exposition text of the registry.
pub open spec fn rendered_metrics(m: MetricsRegistry) -> Seq<char> {
    "# TYPE execution_submitted_total counter\nexecution_submitted_total "@ + dec_str_of(
        m.submitted_total as int,
    ) + "\n# TYPE execution_started_total counter\nexecution_started_total "@ + dec_str_of(
        m.started_total as int,
    ) + "\n# TYPE execution_completed_total counter\nexecution_completed_total "@ + dec_str_of(
        m.completed_total as int,
    ) + "\n# TYPE execution_failed_total counter\nexecution_failed_total "@ + dec_str_of(
        m.failed_total as int,
    ) + "\n# TYPE execution_timed_out_total counter\nexecution_timed_out_total "@ + dec_str_of(
        m.timed_out_total as int,
    ) + "\n# TYPE execution_queue_depth gauge\nexecution_queue_depth "@ + dec_str_of(
        m.queue_depth as int,
    ) + "\n"@
}

impl MetricsRegistry {
    /// A registry with everything at zero.
    pub fn new() -> (r: MetricsRegistry)
        ensures
            r.submitted_total == 0,
            r.started_total == 0,
            r.completed_total == 0,
            r.failed_total == 0,
            r.timed_out_total == 0,
            r.queue_depth == 0,
    {
        MetricsRegistry {
            submitted_total: 0,
            started_total: 0,
            completed_total: 0,
            failed_total: 0,
            timed_out_total: 0,
            queue_depth: 0,
        }
    }

    /// A submission: one more submitted, one more queued.
    pub fn submitted(&mut self)
        ensures
            *final(self) == (MetricsRegistry {
                submitted_total: counter_inc(old(self).submitted_total),
                queue_depth: counter_inc(old(self).queue_depth),
                ..*old(self)
            }),
    {
        self.submitted_total = wrap_counter(self.submitted_total);
        self.queue_depth = wrap_counter(self.queue_depth);
    }

    /// A start: one more started, one fewer queued (never below zero).
    pub fn started(&mut self)
        ensures
            *final(self) == (MetricsRegistry {
                started_total: counter_inc(old(self).started_total),
                queue_depth: if old(self).queue_depth == 0 {
                    0
                } else {
                    (old(self).queue_depth - 1) as u64
                },
                ..*old(self)
            }),
    {
        self.started_total = wrap_counter(self.started_total);
        self.decrement_queue_depth();
    }

    /// A completion, whatever the outcome.
    pub fn completed(&mut self)
        ensures
            *final(self) == (MetricsRegistry {
                completed_total: counter_inc(old(self).completed_total),
                ..*old(self)
            }),
    {
        self.completed_total = wrap_counter(self.completed_total);
    }

    /// A failure.
    pub fn failed(&mut self)
        ensures
            *final(self) == (MetricsRegistry {
                failed_total: counter_inc(old(self).failed_total),
                ..*old(self)
            }),
    {
        self.failed_total = wrap_counter(self.failed_total);
    }

    /// A timeout.
    pub fn timed_out(&mut self)
        ensures
            *final(self) == (MetricsRegistry {
                timed_out_total: counter_inc(old(self).timed_out_total),
                ..*old(self)
            }),
    {
        self.timed_out_total = wrap_counter(self.timed_out_total);
    }

    /// Lowers the queue-depth gauge, saturating at zero.
    pub fn decrement_queue_depth(&mut self)
        ensures
            *final(self) == (MetricsRegistry {
                queue_depth: if old(self).queue_depth == 0 {
                    0
                } else {
                    (old(self).queue_depth - 1) as u64
                },
                ..*old(self)
            }),
    {
        if self.queue_depth > 0 {
            self.queue_depth = self.queue_depth - 1;
        }
    }

    /// Renders the exposition text, character for character.
    pub fn render_prometheus(&self) -> (r: String)
        ensures
            r@ == rendered_metrics(*self),
    {
        let mut out = String::from_str(
            "# TYPE execution_submitted_total counter\nexecution_submitted_total ",
        );
        out.append(u64_to_dec(self.submitted_total).as_str());
        out.append("\n# TYPE execution_started_total counter\nexecution_started_total ");
        out.append(u64_to_dec(self.started_total).as_str());
        out.append("\n# TYPE execution_completed_total counter\nexecution_completed_total ");
        out.append(u64_to_dec(self.completed_total).as_str());
        out.append("\n# TYPE execution_failed_total counter\nexecution_failed_total ");
        out.append(u64_to_dec(self.failed_total).as_str());
        out.append("\n# TYPE execution_timed_out_total counter\nexecution_timed_out_total ");
        out.append(u64_to_dec(self.timed_out_total).as_str());
        out.append("\n# TYPE execution_queue_depth gauge\nexecution_queue_depth ");
        out.append(u64_to_dec(self.queue_depth).as_str());
        out.append("\n");
        proof {
            assert(out@ =~= rendered_metrics(*self));
        }
        out
    }
}

fn wrap_counter(x: u64) -> (r: u64)
    ensures
        r == counter_inc(x),
{
    if x == u64::MAX {
        0
    } else {
        x + 1
    }
}

} // verus!
