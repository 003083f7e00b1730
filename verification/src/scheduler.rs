//! Heterogeneous-scheduling basics: backends, task descriptors, failure
//! taxonomy, and running statistics.

use vstd::prelude::*;

verus! {

/// Scheduling failures.
#[derive(Debug, Clone, Copy, PartialEq, Eq, Structural)]
pub enum SchedulerError {
    /// No worker is available.
    NoWorkers,
    /// The task queue is full.
    QueueFull,
    /// The partition does not cover the tasks.
    InvalidPartition,
}

/// Where a task runs.
#[derive(Debug, Clone, Copy, PartialEq, Eq, Hash, Structural)]
pub enum Backend {
    CPU,
    GPU,
}

/// A schedulable unit of work.
#[derive(Debug, Clone, Copy, PartialEq, Eq, Structural)]
pub struct Task {
    pub id: u64,
    pub size: usize,
    pub backend: Backend,
}

impl Task {
    /// A task bound for a backend.
    pub fn new(id: u64, size: usize, backend: Backend) -> (t: Task)
        ensures
            t == (Task { id, size, backend }),
    {
        Task { id, size, backend }
    }
}

/// Running statistics over scheduled tasks.
#[derive(Debug, Clone, Copy, PartialEq, Eq, Structural)]
pub struct SchedulerStats {
    pub tasks_scheduled: u64,
    pub tasks_cpu: u64,
    pub tasks_gpu: u64,
    pub total_time_ms: u64,
}

impl SchedulerStats {
    /// Fresh statistics: everything at zero.
    pub fn new() -> (s: SchedulerStats)
        ensures
            s == (SchedulerStats { tasks_scheduled: 0, tasks_cpu: 0, tasks_gpu: 0, total_time_ms: 0 }),
    {
        SchedulerStats { tasks_scheduled: 0, tasks_cpu: 0, tasks_gpu: 0, total_time_ms: 0 }
    }

    /// Record one scheduled task: the total and the counter of the task's
    /// backend grow by one, and the elapsed time is accumulated.
    pub fn record_task(&mut self, task: &Task, time_ms: u64)
        requires
            old(self).tasks_scheduled < u64::MAX,
            old(self).tasks_cpu < u64::MAX,
            old(self).tasks_gpu < u64::MAX,
            old(self).total_time_ms + time_ms <= u64::MAX,
        ensures
            final(self).tasks_scheduled == old(self).tasks_scheduled + 1,
            final(self).total_time_ms == old(self).total_time_ms + time_ms,
            final(self).tasks_cpu == old(self).tasks_cpu + if task.backend == Backend::CPU {
                1int
            } else {
                0int
            },
            final(self).tasks_gpu == old(self).tasks_gpu + if task.backend == Backend::GPU {
                1int
            } else {
                0int
            },
    {
        self.tasks_scheduled += 1;
        self.total_time_ms += time_ms;

        match task.backend {
            Backend::CPU => self.tasks_cpu += 1,
            Backend::GPU => self.tasks_gpu += 1,
        }
    }
}

impl Default for SchedulerStats {
    /// The default statistics are all zero.
    fn default() -> (s: SchedulerStats)
        ensures
            s == (SchedulerStats { tasks_scheduled: 0, tasks_cpu: 0, tasks_gpu: 0, total_time_ms: 0 }),
    {
        SchedulerStats::new()
    }
}

} // verus!
