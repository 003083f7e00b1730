//! The JIT runtime: translates a net's pending redexes to kernel IR,
//! compiles it through a pluggable compute backend, caches compiled
//! kernels by IR hash, and submits them for execution.  Backends live
//! outside this crate and are injected by the caller.

use vstd::prelude::*;

verus! {

use crate::ir::{HVMIR, IRNode};
use crate::net::GNet;
use std::collections::HashMap;

/// GPU vendors a backend may detect.
#[derive(Debug, Clone, Copy, PartialEq, Eq, Hash, Structural)]
pub enum GPUVendor {
    NvidiaDesktop,
    QualcommAdreno,
    ARMMali,
    AppleSilicon,
    AMDDesktop,
    IntelXe,
    Unknown,
}

/// A backend's description of its device.
#[derive(Debug, Clone, Copy)]
pub struct GPUInfo {
    pub vendor: GPUVendor,
    pub compute_units: u32,
    pub shared_memory: usize,
    pub is_unified_memory: bool,
}

/// Handle to a kernel a backend has compiled.
#[derive(Debug, Clone, Copy, PartialEq, Eq)]
pub struct CompiledKernel {
    pub id: u64,
    pub workgroup_size: (u32, u32),
}

/// A failure surfaced by the runtime or its backend.
#[derive(Debug, Clone, Copy, PartialEq, Eq, Structural)]
pub enum RuntimeError {
    /// No usable compute backend is available.
    NoBackend,
    /// The backend rejected the kernel IR.
    Compile,
    /// The backend failed while executing a kernel.
    Execute,
}

/// A compute backend: compiles kernel IR and executes compiled kernels
/// against a net.  Implementations live in acceleration layers outside
/// this crate; nothing is assumed of their behaviour.
pub trait GPUBackend {
    fn compile(&self, ir: &HVMIR) -> Result<CompiledKernel, RuntimeError>;

    fn execute(&self, kernel: &CompiledKernel, net: &mut GNet) -> Result<(), RuntimeError>;

    fn get_info(&self) -> GPUInfo;
}

/// The JIT runtime around one backend.
pub struct HVMRuntime<B: GPUBackend> {
    pub backend: B,
    pub kernel_cache: HashMap<u64, CompiledKernel>,
}

impl<B: GPUBackend> HVMRuntime<B> {
    /// Create a runtime around a backend the caller has chosen and
    /// constructed.
    pub fn new(backend: B) -> (r: HVMRuntime<B>)
        ensures
            r.kernel_cache@ == Map::<u64, CompiledKernel>::empty(),
    {
        HVMRuntime { backend, kernel_cache: HashMap::new() }
    }

    /// Translate a net to kernel IR: one interaction instruction per
    /// pending redex, in order.
    pub fn net_to_ir(&self, net: &GNet) -> (r: Result<HVMIR, RuntimeError>)
        ensures
            r matches Ok(ir) ==> {
                &&& ir.nodes@.len() == net.redexes@.len()
                &&& forall|i: int|
                    0 <= i < net.redexes@.len() ==> ir.nodes@[i] == (IRNode::Interact {
                        a: net.redexes@[i].0.val(),
                        b: net.redexes@[i].1.val(),
                    })
            },
            r is Ok,
    {
        let mut ir = HVMIR::new();
        let n = net.redexes.len();
        let mut i: usize = 0;
        while i < n
            invariant
                i <= n,
                n == net.redexes@.len(),
                ir.nodes@.len() == i,
                forall|j: int|
                    0 <= j < i ==> ir.nodes@[j] == (IRNode::Interact {
                        a: net.redexes@[j].0.val(),
                        b: net.redexes@[j].1.val(),
                    }),
            decreases n - i,
        {
            let pair = net.redexes[i];
            ir.add_node(IRNode::Interact { a: pair.0.val(), b: pair.1.val() });
            i += 1;
        }
        Ok(ir)
    }

    /// The cache key of an IR: its instruction count.
    pub fn hash_ir(&self, ir: &HVMIR) -> (h: u64)
        ensures
            h == ir.nodes@.len() as u64,
    {
        ir.len() as u64
    }

    /// Evaluate a net: translate it to IR, compile that IR or reuse the
    /// cached kernel under the same key, and execute the kernel.  On
    /// success the kernel for the net's key is cached; the cache never
    /// loses an entry.
    pub fn eval(&mut self, net: &mut GNet) -> (r: Result<(), RuntimeError>)
        ensures
            old(self).kernel_cache@.submap_of(final(self).kernel_cache@),
            r is Ok ==> final(self).kernel_cache@.dom().contains(
                old(net).redexes@.len() as u64,
            ),
    {
        let ir = match self.net_to_ir(net) {
            Ok(ir) => ir,
            Err(e) => {
                return Err(e);
            }
        };
        let cache_key = self.hash_ir(&ir);
        let kernel = match self.kernel_cache.get(&cache_key) {
            Some(cached) => *cached,
            None => {
                let compiled = match self.backend.compile(&ir) {
                    Ok(k) => k,
                    Err(e) => {
                        return Err(e);
                    }
                };
                self.kernel_cache.insert(cache_key, compiled);
                compiled
            }
        };
        match self.backend.execute(&kernel, net) {
            Ok(()) => Ok(()),
            Err(e) => Err(e),
        }
    }

    /// The backend's description of its device.
    pub fn backend_info(&self) -> (info: GPUInfo) {
        self.backend.get_info()
    }
}

} // verus!
