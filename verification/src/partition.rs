//! Task partitioning: split a task list between the CPU and the GPU
//! according to a strategy, keeping each side's tasks in order.

use vstd::prelude::*;

verus! {

use crate::scheduler::Task;

/// How tasks are split between backends.
#[derive(Debug, Clone, Copy, PartialEq, Eq, Structural)]
pub enum PartitionStrategy {
    /// Every task on the CPU.
    AllCPU,
    /// Every task on the GPU.
    AllGPU,
    /// Tasks at least as large as the threshold go to the GPU.
    SizeThreshold(usize),
    /// Tasks alternate between the backends.
    RoundRobin,
}

/// The two sides of a partition.
#[derive(Debug, Clone, PartialEq, Eq)]
pub struct Partition {
    pub cpu_tasks: Vec<Task>,
    pub gpu_tasks: Vec<Task>,
}

impl Partition {
    /// An empty partition.
    pub fn new() -> (p: Partition)
        ensures
            p.cpu_tasks@.len() == 0,
            p.gpu_tasks@.len() == 0,
    {
        Partition { cpu_tasks: Vec::new(), gpu_tasks: Vec::new() }
    }

    /// How many tasks the partition holds on both sides together.
    pub fn total_tasks(&self) -> (n: usize)
        requires
            self.cpu_tasks@.len() + self.gpu_tasks@.len() <= usize::MAX,
        ensures
            n == self.cpu_tasks@.len() + self.gpu_tasks@.len(),
    {
        self.cpu_tasks.len() + self.gpu_tasks.len()
    }
}

impl Default for Partition {
    /// The default partition is empty.
    fn default() -> (p: Partition)
        ensures
            p.cpu_tasks@.len() == 0,
            p.gpu_tasks@.len() == 0,
    {
        Partition::new()
    }
}

/// Whether a task stays on the CPU under a size threshold.
pub open spec fn below_threshold(t: Task, threshold: int) -> bool {
    (t.size as int) < threshold
}

/// Split tasks between the backends.  Whole-sale strategies copy the
/// list to one side; the size threshold sends each task at least as
/// large as the threshold to the GPU and the rest to the CPU, keeping
/// order; round-robin alternates, evens to the CPU, odds to the GPU.
pub fn partition_tasks(tasks: &[Task], strategy: PartitionStrategy) -> (p: Partition)
    ensures
        match strategy {
            PartitionStrategy::AllCPU => p.cpu_tasks@ == tasks@ && p.gpu_tasks@.len() == 0,
            PartitionStrategy::AllGPU => p.gpu_tasks@ == tasks@ && p.cpu_tasks@.len() == 0,
            PartitionStrategy::SizeThreshold(threshold) => {
                &&& p.cpu_tasks@ == tasks@.filter(|t: Task| below_threshold(t, threshold as int))
                &&& p.gpu_tasks@ == tasks@.filter(|t: Task| !below_threshold(t, threshold as int))
            },
            PartitionStrategy::RoundRobin => {
                &&& p.cpu_tasks@.len() == (tasks@.len() + 1) / 2
                &&& p.gpu_tasks@.len() == tasks@.len() / 2
                &&& forall|k: int| 0 <= k < p.cpu_tasks@.len() ==> p.cpu_tasks@[k] == tasks@[2 * k]
                &&& forall|k: int|
                    0 <= k < p.gpu_tasks@.len() ==> p.gpu_tasks@[k] == tasks@[2 * k + 1]
            },
        },
{
    let mut partition = Partition::new();
    let n = tasks.len();

    match strategy {
        PartitionStrategy::AllCPU => {
            let mut i: usize = 0;
            while i < n
                invariant
                    i <= n,
                    n == tasks@.len(),
                    partition.cpu_tasks@ == tasks@.take(i as int),
                    partition.gpu_tasks@.len() == 0,
                decreases n - i,
            {
                partition.cpu_tasks.push(tasks[i]);
                proof {
                    assert(tasks@.take(i + 1) =~= tasks@.take(i as int).push(tasks@[i as int]));
                }
                i += 1;
            }
            proof {
                assert(tasks@.take(n as int) =~= tasks@);
            }
        }
        PartitionStrategy::AllGPU => {
            let mut i: usize = 0;
            while i < n
                invariant
                    i <= n,
                    n == tasks@.len(),
                    partition.gpu_tasks@ == tasks@.take(i as int),
                    partition.cpu_tasks@.len() == 0,
                decreases n - i,
            {
                partition.gpu_tasks.push(tasks[i]);
                proof {
                    assert(tasks@.take(i + 1) =~= tasks@.take(i as int).push(tasks@[i as int]));
                }
                i += 1;
            }
            proof {
                assert(tasks@.take(n as int) =~= tasks@);
            }
        }
        PartitionStrategy::SizeThreshold(threshold) => {
            let ghost keep = |t: Task| below_threshold(t, threshold as int);
            let ghost send = |t: Task| !below_threshold(t, threshold as int);
            let mut i: usize = 0;
            while i < n
                invariant
                    i <= n,
                    n == tasks@.len(),
                    keep == (|t: Task| below_threshold(t, threshold as int)),
                    send == (|t: Task| !below_threshold(t, threshold as int)),
                    partition.cpu_tasks@ == tasks@.take(i as int).filter(keep),
                    partition.gpu_tasks@ == tasks@.take(i as int).filter(send),
                decreases n - i,
            {
                let task = tasks[i];
                if task.size >= threshold {
                    partition.gpu_tasks.push(task);
                } else {
                    partition.cpu_tasks.push(task);
                }
                proof {
                    assert(tasks@.take(i + 1).drop_last() =~= tasks@.take(i as int));
                    reveal_with_fuel(Seq::filter, 2);
                    assert(tasks@.take(i + 1).last() == tasks@[i as int]);
                }
                i += 1;
            }
            proof {
                assert(tasks@.take(n as int) =~= tasks@);
            }
        }
        PartitionStrategy::RoundRobin => {
            let mut i: usize = 0;
            while i < n
                invariant
                    i <= n,
                    n == tasks@.len(),
                    partition.cpu_tasks@.len() == (i + 1) / 2,
                    partition.gpu_tasks@.len() == i / 2,
                    forall|k: int|
                        0 <= k < partition.cpu_tasks@.len() ==> partition.cpu_tasks@[k]
                            == tasks@[2 * k],
                    forall|k: int|
                        0 <= k < partition.gpu_tasks@.len() ==> partition.gpu_tasks@[k]
                            == tasks@[2 * k + 1],
                decreases n - i,
            {
                if i % 2 == 0 {
                    partition.cpu_tasks.push(tasks[i]);
                } else {
                    partition.gpu_tasks.push(tasks[i]);
                }
                i += 1;
            }
        }
    }

    partition
}

} // verus!
