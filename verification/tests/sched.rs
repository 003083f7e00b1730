use hvmx::{partition_tasks, Backend, Partition, PartitionStrategy, SchedulerStats, Task};

#[test]
fn test_task_creation() {
    let task = Task::new(1, 1024, Backend::GPU);
    assert_eq!(task.id, 1);
    assert_eq!(task.size, 1024);
    assert_eq!(task.backend, Backend::GPU);
}

#[test]
fn test_scheduler_stats() {
    let mut stats = SchedulerStats::new();
    let task = Task::new(1, 100, Backend::CPU);

    stats.record_task(&task, 10);
    assert_eq!(stats.tasks_scheduled, 1);
    assert_eq!(stats.tasks_cpu, 1);
    assert_eq!(stats.total_time_ms, 10);
}

#[test]
fn test_backend_types() {
    assert_ne!(Backend::CPU, Backend::GPU);
}

#[test]
fn test_stats_multiple_backends() {
    let mut stats = SchedulerStats::new();
    stats.record_task(&Task::new(1, 100, Backend::CPU), 5);
    stats.record_task(&Task::new(2, 200, Backend::GPU), 10);

    assert_eq!(stats.tasks_cpu, 1);
    assert_eq!(stats.tasks_gpu, 1);
}

#[test]
fn test_partition_all_cpu() {
    let tasks = vec![Task::new(1, 100, Backend::CPU), Task::new(2, 200, Backend::CPU)];

    let partition = partition_tasks(&tasks, PartitionStrategy::AllCPU);
    assert_eq!(partition.cpu_tasks.len(), 2);
    assert_eq!(partition.gpu_tasks.len(), 0);
}

#[test]
fn test_partition_all_gpu() {
    let tasks = vec![Task::new(1, 100, Backend::GPU), Task::new(2, 200, Backend::GPU)];

    let partition = partition_tasks(&tasks, PartitionStrategy::AllGPU);
    assert_eq!(partition.cpu_tasks.len(), 0);
    assert_eq!(partition.gpu_tasks.len(), 2);
}

#[test]
fn test_partition_size_threshold() {
    let tasks = vec![
        Task::new(1, 50, Backend::CPU),
        Task::new(2, 150, Backend::GPU),
        Task::new(3, 200, Backend::GPU),
    ];

    let partition = partition_tasks(&tasks, PartitionStrategy::SizeThreshold(100));
    assert_eq!(partition.cpu_tasks.len(), 1);
    assert_eq!(partition.gpu_tasks.len(), 2);
}

#[test]
fn test_partition_size_threshold_keeps_order() {
    let tasks = vec![
        Task::new(1, 300, Backend::GPU),
        Task::new(2, 10, Backend::CPU),
        Task::new(3, 200, Backend::GPU),
        Task::new(4, 20, Backend::CPU),
    ];
    let partition = partition_tasks(&tasks, PartitionStrategy::SizeThreshold(100));
    assert_eq!(partition.cpu_tasks[0].id, 2);
    assert_eq!(partition.cpu_tasks[1].id, 4);
    assert_eq!(partition.gpu_tasks[0].id, 1);
    assert_eq!(partition.gpu_tasks[1].id, 3);
}

#[test]
fn test_partition_round_robin() {
    let tasks = vec![
        Task::new(1, 100, Backend::CPU),
        Task::new(2, 100, Backend::GPU),
        Task::new(3, 100, Backend::CPU),
        Task::new(4, 100, Backend::GPU),
    ];

    let partition = partition_tasks(&tasks, PartitionStrategy::RoundRobin);
    assert_eq!(partition.cpu_tasks.len(), 2);
    assert_eq!(partition.gpu_tasks.len(), 2);
}

#[test]
fn test_partition_round_robin_alternates() {
    let tasks = vec![
        Task::new(1, 1, Backend::CPU),
        Task::new(2, 2, Backend::CPU),
        Task::new(3, 3, Backend::CPU),
    ];
    let partition = partition_tasks(&tasks, PartitionStrategy::RoundRobin);
    assert_eq!(partition.cpu_tasks[0].id, 1);
    assert_eq!(partition.gpu_tasks[0].id, 2);
    assert_eq!(partition.cpu_tasks[1].id, 3);
}

#[test]
fn test_partition_total_tasks() {
    let tasks = vec![Task::new(1, 100, Backend::CPU), Task::new(2, 200, Backend::GPU)];

    let partition = partition_tasks(&tasks, PartitionStrategy::AllCPU);
    assert_eq!(partition.total_tasks(), 2);
}

#[test]
fn test_partition_empty() {
    let partition = Partition::new();
    assert_eq!(partition.total_tasks(), 0);
}
