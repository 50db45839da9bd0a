//! Timing records for executions and for scheduled work. Durations and
//! instants are carried as plain nanosecond counts, so that the arithmetic on
//! them is exact.

use vstd::prelude::*;

verus! {

/// Timing of one model execution: how long the engine ran, and the wall-clock
/// window around it.
#[derive(Debug, Clone, Copy)]
pub struct LightrayModelExecutionStatistic {
    /// Execution time of the model, in nanoseconds.
    pub elapsed_execution_time: u64,
    /// Wall clock when the execution started, in nanoseconds since the epoch.
    pub start_execution_time: u64,
    /// Wall clock when the execution ended, in nanoseconds since the epoch.
    pub end_execution_time: u64,
}

/// Timing of one scheduled request, queue wait included.
#[derive(Debug, Clone, Copy)]
pub struct LightrayModelStatistic {
    /// Execution time of the model, in nanoseconds.
    pub elapsed_execution_time: u64,
    /// Total time spent in the queue, in nanoseconds.
    pub elapsed_queue_time: u64,
    /// Wall clock when the work was first put into the queue.
    pub start_queue_time: u64,
    /// Wall clock when the work began to execute.
    pub start_execution_time: u64,
    /// Wall clock when the execution ended.
    pub end_execution_time: u64,
    /// Whether the sample ran in a batched context.
    pub batched_mode: bool,
}

/// What the scheduler measured around one enqueue: the wait for the reply and
/// a best-effort snapshot of the queue depth.
#[derive(Debug, Clone, Copy)]
pub struct SchedulerStatistics {
    /// Time spent waiting in the queue, in nanoseconds.
    pub time_spent_in_queue: u64,
    /// Wall clock when the work entered the queue.
    pub start_time_in_queue: u64,
    /// Wall clock when the reply arrived.
    pub end_time_in_queue: u64,
    /// Queue depth observed when the reply arrived.
    pub number_of_elements_in_queue: usize,
}

impl SchedulerStatistics {
    /// Assemble the statistics of one enqueue from its raw clock readings.
    /// The time in the queue is the monotonic difference, never negative; a
    /// clock that stepped backwards reads as zero.
    pub fn from_readings(
        mono_start: u64,
        mono_end: u64,
        wall_start: u64,
        wall_end: u64,
        depth: usize,
    ) -> (r: SchedulerStatistics)
        ensures
            r.time_spent_in_queue == if mono_end >= mono_start {
                (mono_end - mono_start) as u64
            } else {
                0u64
            },
            r.time_spent_in_queue >= 0,
            r.start_time_in_queue == wall_start,
            r.end_time_in_queue == wall_end,
            r.number_of_elements_in_queue == depth,
    {
        let wait: u64 = if mono_end >= mono_start {
            mono_end - mono_start
        } else {
            0
        };
        SchedulerStatistics {
            time_spent_in_queue: wait,
            start_time_in_queue: wall_start,
            end_time_in_queue: wall_end,
            number_of_elements_in_queue: depth,
        }
    }
}

} // verus!
