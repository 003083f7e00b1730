//! Intermediate representation for compiled kernels: a flat list of
//! instructions that a backend lowers to its own device form.

use vstd::prelude::*;

verus! {

/// One IR instruction.
#[derive(Debug, Clone, Copy, PartialEq, Eq, Structural)]
pub enum IRNode {
    /// Wire one port slot to another.
    Link { src: u32, dst: u32 },
    /// Reserve node storage.
    Alloc { size: usize },
    /// Release a node slot.
    Free { ptr: u32 },
    /// Reduce the redex formed by two ports.
    Interact { a: u32, b: u32 },
}

/// A kernel's instruction list.
#[derive(Debug, Clone, PartialEq, Eq)]
pub struct HVMIR {
    pub nodes: Vec<IRNode>,
}

impl HVMIR {
    /// An empty instruction list.
    pub fn new() -> (ir: HVMIR)
        ensures
            ir.nodes@.len() == 0,
    {
        HVMIR { nodes: Vec::new() }
    }

    /// Append one instruction.
    pub fn add_node(&mut self, node: IRNode)
        ensures
            final(self).nodes@ == old(self).nodes@.push(node),
    {
        self.nodes.push(node);
    }

    /// The number of instructions held.
    pub fn len(&self) -> (n: usize)
        ensures
            n == self.nodes@.len(),
    {
        self.nodes.len()
    }

    /// Whether no instruction is held.
    pub fn is_empty(&self) -> (r: bool)
        ensures
            r == (self.nodes@.len() == 0),
    {
        self.nodes.is_empty()
    }
}

impl Default for HVMIR {
    /// The default IR is the empty instruction list.
    fn default() -> (ir: HVMIR)
        ensures
            ir.nodes@.len() == 0,
    {
        HVMIR::new()
    }
}

} // verus!
