use hvmx::{
    CompiledKernel, GNet, GPUBackend, GPUInfo, GPUVendor, HVMRuntime, IRNode, Port, RuntimeError,
    Tag, HVMIR,
};

/// A host-side backend standing in for a device layer.
struct CpuBackend;

impl GPUBackend for CpuBackend {
    fn compile(&self, ir: &HVMIR) -> Result<CompiledKernel, RuntimeError> {
        Ok(CompiledKernel { id: ir.len() as u64, workgroup_size: (1, 1) })
    }

    fn execute(&self, _kernel: &CompiledKernel, _net: &mut GNet) -> Result<(), RuntimeError> {
        Ok(())
    }

    fn get_info(&self) -> GPUInfo {
        GPUInfo {
            vendor: GPUVendor::Unknown,
            compute_units: 1,
            shared_memory: 0x8000,
            is_unified_memory: true,
        }
    }
}

/// A backend that refuses everything.
struct FailingBackend;

impl GPUBackend for FailingBackend {
    fn compile(&self, _ir: &HVMIR) -> Result<CompiledKernel, RuntimeError> {
        Err(RuntimeError::Compile)
    }

    fn execute(&self, _kernel: &CompiledKernel, _net: &mut GNet) -> Result<(), RuntimeError> {
        Err(RuntimeError::Execute)
    }

    fn get_info(&self) -> GPUInfo {
        GPUInfo {
            vendor: GPUVendor::Unknown,
            compute_units: 0,
            shared_memory: 0,
            is_unified_memory: false,
        }
    }
}

#[test]
fn test_ir_creation() {
    let ir = HVMIR::new();
    assert_eq!(ir.len(), 0);
    assert!(ir.is_empty());
}

#[test]
fn test_ir_add_node() {
    let mut ir = HVMIR::new();
    ir.add_node(IRNode::Link { src: 1, dst: 2 });
    assert_eq!(ir.len(), 1);
}

#[test]
fn test_ir_multiple_nodes() {
    let mut ir = HVMIR::new();
    ir.add_node(IRNode::Alloc { size: 1024 });
    ir.add_node(IRNode::Link { src: 1, dst: 2 });
    ir.add_node(IRNode::Free { ptr: 1 });

    assert_eq!(ir.len(), 3);
}

#[test]
fn test_runtime_creation() {
    let runtime = HVMRuntime::new(CpuBackend);
    let info = runtime.backend_info();
    println!("GPU detected: {:?}", info.vendor);
}

#[test]
fn test_gpu_vendor_enum() {
    let vendor = GPUVendor::QualcommAdreno;
    assert_eq!(vendor, GPUVendor::QualcommAdreno);
}

#[test]
fn test_compiled_kernel() {
    let kernel = CompiledKernel { id: 42, workgroup_size: (16, 16) };
    assert_eq!(kernel.id, 42);
}

#[test]
fn test_net_to_ir_conversion() {
    let runtime = HVMRuntime::new(CpuBackend);

    let net = GNet::new();
    let result = runtime.net_to_ir(&net);
    assert!(result.is_ok());
}

#[test]
fn test_net_to_ir_translates_redexes() {
    let runtime = HVMRuntime::new(CpuBackend);
    let mut net = GNet::new();
    net.redexes.push((Port::new(Tag::Num, 5), Port::new(Tag::Num, 7)));
    let ir = runtime.net_to_ir(&net).unwrap();
    assert_eq!(ir.len(), 1);
    assert!(matches!(ir.nodes[0], IRNode::Interact { a: 5, b: 7 }));
}

#[test]
fn test_kernel_cache() {
    let runtime = HVMRuntime::new(CpuBackend);

    assert_eq!(runtime.kernel_cache.len(), 0);
}

#[test]
fn test_eval_fills_cache() {
    let mut runtime = HVMRuntime::new(CpuBackend);
    let mut net = GNet::new();
    runtime.eval(&mut net).unwrap();
    assert_eq!(runtime.kernel_cache.len(), 1);
    runtime.eval(&mut net).unwrap();
    assert_eq!(runtime.kernel_cache.len(), 1);
}

#[test]
fn test_eval_surfaces_backend_failure() {
    let mut runtime = HVMRuntime::new(FailingBackend);
    let mut net = GNet::new();
    assert_eq!(runtime.eval(&mut net), Err(RuntimeError::Compile));
    assert_eq!(runtime.kernel_cache.len(), 0);
}

/// A backend whose kernels compile but refuse to run.
struct ExecFailBackend;

impl GPUBackend for ExecFailBackend {
    fn compile(&self, ir: &HVMIR) -> Result<CompiledKernel, RuntimeError> {
        Ok(CompiledKernel { id: ir.len() as u64, workgroup_size: (1, 1) })
    }

    fn execute(&self, _kernel: &CompiledKernel, _net: &mut GNet) -> Result<(), RuntimeError> {
        Err(RuntimeError::Execute)
    }

    fn get_info(&self) -> GPUInfo {
        GPUInfo {
            vendor: GPUVendor::Unknown,
            compute_units: 1,
            shared_memory: 0,
            is_unified_memory: false,
        }
    }
}

#[test]
fn test_eval_surfaces_execute_failure() {
    let mut runtime = HVMRuntime::new(ExecFailBackend);
    let mut net = GNet::new();
    assert_eq!(runtime.eval(&mut net), Err(RuntimeError::Execute));
    // The compiled kernel stays cached for the next attempt.
    assert_eq!(runtime.kernel_cache.len(), 1);
}

#[test]
fn test_cpu_stub() {
    // The host-side backend compiles and executes without a device.
    let backend = CpuBackend;
    let kernel = backend.compile(&HVMIR::new()).unwrap();
    assert_eq!(kernel.id, 0);
    let mut net = GNet::new();
    assert!(backend.execute(&kernel, &mut net).is_ok());
}
