//! Core of an interaction-net virtual machine: tagged ports, wrapped
//! numerals, net storage with a pending-redex set, a definition book, and
//! the interaction rules that rewrite redexes until a net reaches normal
//! form.  Around the core sit small supporting layers: an intermediate
//! representation for compiled kernels, a runtime that drives a pluggable
//! compute backend, a unified-memory allocator with prefetch hints and
//! tiled layouts, and a task scheduler with partitioning strategies.

pub mod book;
pub mod interact;
pub mod ir;
pub mod memory;
pub mod net;
pub mod numb;
pub mod partition;
pub mod port;
pub mod prefetch;
pub mod runtime;
pub mod scheduler;
pub mod tile;
pub mod unified;

pub use book::{Book, Def};
pub use interact::{get_rule, interact, reduce, InteractError, Rule};
pub use ir::{HVMIR, IRNode};
pub use memory::{MemStats, MemoryError, Region};
pub use net::{GNet, Node};
pub use runtime::{CompiledKernel, GPUBackend, GPUInfo, GPUVendor, HVMRuntime, RuntimeError};
pub use numb::Numb;
pub use partition::{partition_tasks, Partition, PartitionStrategy};
pub use port::{Port, Tag, Val};
pub use prefetch::{PrefetchHint, PrefetchManager, PrefetchStrategy};
pub use tile::{linear_to_tiled, tiled_to_linear, TileConfig};
pub use scheduler::{Backend, SchedulerError, SchedulerStats, Task};
pub use unified::UnifiedAllocator;
