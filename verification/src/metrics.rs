//! Session-level metrics — lightweight counters updated by the runtime.
//!
//! [`SessionMetrics`] accumulates counters across all turns. Callers can
//! snapshot the values to feed their own monitoring stack. Counters advance
//! with wrapping addition, as `fetch_add` on an atomic counter does.
use vstd::prelude::*;

verus! {

/// The ten counter values of a [`SessionMetrics`], also used as the snapshot
/// that a failed turn is rolled back to.
#[derive(Debug, Clone, Copy, PartialEq, Eq, Structural)]
pub struct MetricsCheckpoint {
    pub total_input_tokens: usize,
    pub total_output_tokens: usize,
    pub total_prompt_cache_hit_tokens: usize,
    pub total_prompt_cache_miss_tokens: usize,
    pub total_tool_calls: usize,
    pub total_tool_errors: usize,
    pub total_iterations: usize,
    pub compaction_count: usize,
    pub turn_count: usize,
    pub retry_count: usize,
}

/// Accumulated metrics for an agent session, updated by the runtime.
///
/// A session holds one set of counters, updated in place; the type is not
/// `Clone`, so no second handle can drift from it. Whoever needs the numbers
/// takes a snapshot of the values.
#[derive(Debug)]
pub struct SessionMetrics {
    counts: MetricsCheckpoint,
}

impl View for SessionMetrics {
    type V = MetricsCheckpoint;

    closed spec fn view(&self) -> MetricsCheckpoint {
        self.counts
    }
}

/// All counters at zero.
pub open spec fn zero_counts() -> MetricsCheckpoint {
    MetricsCheckpoint {
        total_input_tokens: 0,
        total_output_tokens: 0,
        total_prompt_cache_hit_tokens: 0,
        total_prompt_cache_miss_tokens: 0,
        total_tool_calls: 0,
        total_tool_errors: 0,
        total_iterations: 0,
        compaction_count: 0,
        turn_count: 0,
        retry_count: 0,
    }
}

impl SessionMetrics {
    /// Create a fresh metrics accumulator.
    pub fn new() -> (r: Self)
        ensures
            r@ == zero_counts(),
    {
        Self::with_values(0, 0, 0, 0, 0, 0, 0, 0, 0, 0)
    }

    /// Restore metrics from persisted counter values.
    pub fn with_values(
        total_input_tokens: usize,
        total_output_tokens: usize,
        total_prompt_cache_hit_tokens: usize,
        total_prompt_cache_miss_tokens: usize,
        total_tool_calls: usize,
        total_tool_errors: usize,
        total_iterations: usize,
        compaction_count: usize,
        turn_count: usize,
        retry_count: usize,
    ) -> (r: Self)
        ensures
            r@ == (MetricsCheckpoint {
                total_input_tokens,
                total_output_tokens,
                total_prompt_cache_hit_tokens,
                total_prompt_cache_miss_tokens,
                total_tool_calls,
                total_tool_errors,
                total_iterations,
                compaction_count,
                turn_count,
                retry_count,
            }),
    {
        SessionMetrics {
            counts: MetricsCheckpoint {
                total_input_tokens,
                total_output_tokens,
                total_prompt_cache_hit_tokens,
                total_prompt_cache_miss_tokens,
                total_tool_calls,
                total_tool_errors,
                total_iterations,
                compaction_count,
                turn_count,
                retry_count,
            },
        }
    }

    /// Total input tokens consumed across all turns.
    pub fn total_input_tokens(&self) -> (r: usize)
        ensures
            r == self@.total_input_tokens,
    {
        self.counts.total_input_tokens
    }

    /// Total output tokens produced across all turns.
    pub fn total_output_tokens(&self) -> (r: usize)
        ensures
            r == self@.total_output_tokens,
    {
        self.counts.total_output_tokens
    }

    /// Total prompt tokens served from cache across all turns.
    pub fn total_prompt_cache_hit_tokens(&self) -> (r: usize)
        ensures
            r == self@.total_prompt_cache_hit_tokens,
    {
        self.counts.total_prompt_cache_hit_tokens
    }

    /// Total prompt tokens not served from cache across all turns.
    pub fn total_prompt_cache_miss_tokens(&self) -> (r: usize)
        ensures
            r == self@.total_prompt_cache_miss_tokens,
    {
        self.counts.total_prompt_cache_miss_tokens
    }

    /// Total number of tool calls executed.
    pub fn total_tool_calls(&self) -> (r: usize)
        ensures
            r == self@.total_tool_calls,
    {
        self.counts.total_tool_calls
    }

    /// Total number of tool calls that resulted in errors.
    pub fn total_tool_errors(&self) -> (r: usize)
        ensures
            r == self@.total_tool_errors,
    {
        self.counts.total_tool_errors
    }

    /// Total number of model ⇄ tool iterations across all turns.
    pub fn total_iterations(&self) -> (r: usize)
        ensures
            r == self@.total_iterations,
    {
        self.counts.total_iterations
    }

    /// Number of times compaction was triggered.
    pub fn compaction_count(&self) -> (r: usize)
        ensures
            r == self@.compaction_count,
    {
        self.counts.compaction_count
    }

    /// Number of turns completed.
    pub fn turn_count(&self) -> (r: usize)
        ensures
            r == self@.turn_count,
    {
        self.counts.turn_count
    }

    /// Number of provider retries across all turns.
    pub fn retry_count(&self) -> (r: usize)
        ensures
            r == self@.retry_count,
    {
        self.counts.retry_count
    }

    pub fn add_input_tokens(&mut self, n: usize)
        ensures
            final(self)@ == (MetricsCheckpoint {
                total_input_tokens: old(self)@.total_input_tokens.wrapping_add(n),
                ..old(self)@
            }),
    {
        self.counts.total_input_tokens = self.counts.total_input_tokens.wrapping_add(n);
    }

    pub fn add_output_tokens(&mut self, n: usize)
        ensures
            final(self)@ == (MetricsCheckpoint {
                total_output_tokens: old(self)@.total_output_tokens.wrapping_add(n),
                ..old(self)@
            }),
    {
        self.counts.total_output_tokens = self.counts.total_output_tokens.wrapping_add(n);
    }

    pub fn add_prompt_cache_hit_tokens(&mut self, n: usize)
        ensures
            final(self)@ == (MetricsCheckpoint {
                total_prompt_cache_hit_tokens: old(self)@.total_prompt_cache_hit_tokens.wrapping_add(
                    n,
                ),
                ..old(self)@
            }),
    {
        self.counts.total_prompt_cache_hit_tokens =
        self.counts.total_prompt_cache_hit_tokens.wrapping_add(n);
    }

    pub fn add_prompt_cache_miss_tokens(&mut self, n: usize)
        ensures
            final(self)@ == (MetricsCheckpoint {
                total_prompt_cache_miss_tokens: old(
                    self,
                )@.total_prompt_cache_miss_tokens.wrapping_add(n),
                ..old(self)@
            }),
    {
        self.counts.total_prompt_cache_miss_tokens =
        self.counts.total_prompt_cache_miss_tokens.wrapping_add(n);
    }

    pub fn add_tool_call(&mut self)
        ensures
            final(self)@ == (MetricsCheckpoint {
                total_tool_calls: old(self)@.total_tool_calls.wrapping_add(1),
                ..old(self)@
            }),
    {
        self.counts.total_tool_calls = self.counts.total_tool_calls.wrapping_add(1);
    }

    pub fn add_tool_error(&mut self)
        ensures
            final(self)@ == (MetricsCheckpoint {
                total_tool_errors: old(self)@.total_tool_errors.wrapping_add(1),
                ..old(self)@
            }),
    {
        self.counts.total_tool_errors = self.counts.total_tool_errors.wrapping_add(1);
    }

    pub fn add_iteration(&mut self)
        ensures
            final(self)@ == (MetricsCheckpoint {
                total_iterations: old(self)@.total_iterations.wrapping_add(1),
                ..old(self)@
            }),
    {
        self.counts.total_iterations = self.counts.total_iterations.wrapping_add(1);
    }

    pub fn add_compaction(&mut self)
        ensures
            final(self)@ == (MetricsCheckpoint {
                compaction_count: old(self)@.compaction_count.wrapping_add(1),
                ..old(self)@
            }),
    {
        self.counts.compaction_count = self.counts.compaction_count.wrapping_add(1);
    }

    pub fn add_turn(&mut self)
        ensures
            final(self)@ == (MetricsCheckpoint {
                turn_count: old(self)@.turn_count.wrapping_add(1),
                ..old(self)@
            }),
    {
        self.counts.turn_count = self.counts.turn_count.wrapping_add(1);
    }

    pub fn add_retry(&mut self)
        ensures
            final(self)@ == (MetricsCheckpoint {
                retry_count: old(self)@.retry_count.wrapping_add(1),
                ..old(self)@
            }),
    {
        self.counts.retry_count = self.counts.retry_count.wrapping_add(1);
    }

    /// Snapshot current counter values for later restore.
    pub fn checkpoint(&self) -> (r: MetricsCheckpoint)
        ensures
            r == self@,
    {
        self.counts
    }

    /// Restore counters to previously snapshotted values.
    pub fn restore(&mut self, cp: &MetricsCheckpoint)
        ensures
            final(self)@ == *cp,
    {
        self.counts = *cp;
    }
}

/// Counters are monotonic: below overflow, an update raises a counter by
/// exactly the amount added.
pub proof fn law_counters_monotone(c: usize, n: usize)
    requires
        c + n <= usize::MAX,
    ensures
        c.wrapping_add(n) == c + n,
        c <= c.wrapping_add(n),
{
}

} // verus!
