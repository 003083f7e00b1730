//! GNet: the mutable interaction-net graph.  Nodes live in a flat growable
//! store addressed by integer index, with a reuse pool for reclaimed slots;
//! wires are variable slots that hold the substituted port once one side of
//! the wire has been resolved; pending redexes sit in a stack.

use vstd::prelude::*;

verus! {

use crate::port::{Port, Tag};

/// Node addresses and variable indices must fit in a port's 29 payload
/// bits, so each store holds at most 2^29 entries.
pub const STORE_CAP: usize = 0x2000_0000;

/// A node: a rule label and two auxiliary ports.  The node's address in
/// the store is its identity and serves as its principal connection; for
/// operator nodes the label selects the arithmetic operation.
#[derive(Debug, Clone, Copy, PartialEq, Eq, Structural)]
pub struct Node {
    pub lab: u32,
    pub a: Port,
    pub b: Port,
}

/// The interaction net: node store, variable slots, pending redexes, and
/// the reuse pool of freed node addresses.
#[derive(Debug, Clone, PartialEq, Eq)]
pub struct GNet {
    /// Flat node store; a port with a node tag addresses into it.
    pub nodes: Vec<Node>,
    /// Pending redexes: pairs of ports whose principal connections meet.
    pub redexes: Vec<(Port, Port)>,
    /// Variable slots: `None` while the wire is unresolved, the
    /// substituted port once one endpoint has been linked.
    pub vars: Vec<Option<Port>>,
    /// Freed node addresses, handed out again by allocation.
    pub reuse: Vec<u32>,
}

/// The node store and reuse pool after allocating `n`, and the address the
/// allocation returns: the most recently freed slot is reused first, and
/// only when the pool is empty does the store grow.
pub open spec fn spec_alloc(nodes: Seq<Node>, reuse: Seq<u32>, n: Node) -> (Seq<Node>, Seq<u32>, int) {
    if reuse.len() > 0 {
        (nodes.update(reuse.last() as int, n), reuse.drop_last(), reuse.last() as int)
    } else {
        (nodes.push(n), reuse, nodes.len() as int)
    }
}

impl GNet {
    /// A port only addresses inside the node store: node tags stay below
    /// the store's length.  Leaf tags carry no address, and a variable
    /// index is always in range because the slot store grows on demand
    /// when a fresh wire is first linked.
    pub open spec fn port_ok(self, p: Port) -> bool {
        match p.tag() {
            Tag::Con | Tag::Dup | Tag::App | Tag::Opr => (p.val() as int) < self.nodes@.len(),
            _ => true,
        }
    }

    /// Both auxiliaries of a node are in range.
    pub open spec fn node_ok(self, n: Node) -> bool {
        self.port_ok(n.a) && self.port_ok(n.b)
    }

    /// Well-formedness: every port stored anywhere in the net is in range,
    /// the reuse pool only names existing slots, and both stores fit the
    /// 29-bit address space.
    pub open spec fn wf(self) -> bool {
        &&& forall|i: int|
            0 <= i < self.nodes@.len() ==> self.node_ok(#[trigger] self.nodes@[i])
        &&& forall|i: int|
            0 <= i < self.redexes@.len() ==> self.port_ok(#[trigger] self.redexes@[i].0)
                && self.port_ok(self.redexes@[i].1)
        &&& forall|i: int|
            0 <= i < self.vars@.len() ==> match #[trigger] self.vars@[i] {
                Some(p) => self.port_ok(p),
                None => true,
            }
        &&& forall|i: int|
            0 <= i < self.reuse@.len() ==> (#[trigger] self.reuse@[i] as int) < self.nodes@.len()
        &&& self.nodes@.len() <= STORE_CAP
        &&& self.vars@.len() <= STORE_CAP
    }

    /// Two nets hold the same state, field for field.
    pub open spec fn same_state(self, other: GNet) -> bool {
        &&& self.nodes@ == other.nodes@
        &&& self.redexes@ == other.redexes@
        &&& self.vars@ == other.vars@
        &&& self.reuse@ == other.reuse@
    }

    /// An empty net: no nodes, no wires, no pending redexes.
    pub fn new() -> (net: GNet)
        ensures
            net.nodes@.len() == 0,
            net.redexes@.len() == 0,
            net.vars@.len() == 0,
            net.reuse@.len() == 0,
            net.wf(),
    {
        GNet { nodes: Vec::new(), redexes: Vec::new(), vars: Vec::new(), reuse: Vec::new() }
    }

    /// Read the node at an address.
    pub fn node(&self, addr: u32) -> (n: Node)
        requires
            (addr as int) < self.nodes@.len(),
        ensures
            n == self.nodes@[addr as int],
    {
        self.nodes[addr as usize]
    }

    /// Whether `k` further node allocations can all succeed.
    pub fn has_node_room(&self, k: usize) -> (r: bool)
        requires
            self.wf(),
        ensures
            r == (k as int <= self.reuse@.len() + (STORE_CAP - self.nodes@.len())),
    {
        k <= self.reuse.len() || k - self.reuse.len() <= STORE_CAP - self.nodes.len()
    }

    /// Whether `k` further variable allocations can all succeed.
    pub fn has_var_room(&self, k: usize) -> (r: bool)
        requires
            self.wf(),
        ensures
            r == (k as int <= STORE_CAP - self.vars@.len()),
    {
        k <= STORE_CAP - self.vars.len()
    }

    /// Allocate a node, reusing the most recently freed slot when one
    /// exists.  Returns the address, or `None` when the store is full.
    pub fn alloc_node(&mut self, lab: u32, a: Port, b: Port) -> (r: Option<u32>)
        requires
            old(self).wf(),
        ensures
            final(self).redexes@ == old(self).redexes@,
            final(self).vars@ == old(self).vars@,
            match r {
                Some(addr) => {
                    let (nodes, reuse, at) = spec_alloc(
                        old(self).nodes@,
                        old(self).reuse@,
                        Node { lab, a, b },
                    );
                    &&& final(self).nodes@ == nodes
                    &&& final(self).reuse@ == reuse
                    &&& addr as int == at
                    &&& (addr as int) < final(self).nodes@.len()
                },
                None => {
                    &&& old(self).reuse@.len() == 0
                    &&& old(self).nodes@.len() == STORE_CAP
                    &&& final(self).same_state(*old(self))
                },
            },
            old(self).port_ok(a) && old(self).port_ok(b) ==> final(self).wf(),
    {
        match self.reuse.pop() {
            Some(addr) => {
                self.nodes[addr as usize] = Node { lab, a, b };
                Some(addr)
            }
            None => {
                if self.nodes.len() < STORE_CAP {
                    let addr = self.nodes.len() as u32;
                    self.nodes.push(Node { lab, a, b });
                    Some(addr)
                } else {
                    None
                }
            }
        }
    }

    /// Return a node address to the reuse pool.  The caller must have
    /// fully disconnected the node within the same rewrite step.
    pub fn free_node(&mut self, addr: u32)
        requires
            (addr as int) < old(self).nodes@.len(),
        ensures
            final(self).nodes@ == old(self).nodes@,
            final(self).redexes@ == old(self).redexes@,
            final(self).vars@ == old(self).vars@,
            final(self).reuse@ == old(self).reuse@.push(addr),
            old(self).wf() ==> final(self).wf(),
    {
        self.reuse.push(addr);
    }

    /// Push a pending redex.
    pub fn push_redex(&mut self, a: Port, b: Port)
        ensures
            final(self).nodes@ == old(self).nodes@,
            final(self).redexes@ == old(self).redexes@.push((a, b)),
            final(self).vars@ == old(self).vars@,
            final(self).reuse@ == old(self).reuse@,
            old(self).wf() && old(self).port_ok(a) && old(self).port_ok(b) ==> final(self).wf(),
    {
        self.redexes.push((a, b));
    }

    /// Pop the most recently pushed pending redex, if any.
    pub fn pop_redex(&mut self) -> (r: Option<(Port, Port)>)
        ensures
            final(self).nodes@ == old(self).nodes@,
            final(self).vars@ == old(self).vars@,
            final(self).reuse@ == old(self).reuse@,
            match r {
                Some(pair) => old(self).redexes@.len() > 0 && pair == old(self).redexes@.last()
                    && final(self).redexes@ == old(self).redexes@.drop_last(),
                None => old(self).redexes@.len() == 0 && final(self).redexes@ == old(self).redexes@,
            },
            old(self).wf() ==> final(self).wf(),
    {
        self.redexes.pop()
    }

    /// Allocate a fresh unresolved variable slot and return its index, or
    /// `None` when the slot store is full.
    pub fn alloc_var(&mut self) -> (r: Option<u32>)
        requires
            old(self).wf(),
        ensures
            final(self).nodes@ == old(self).nodes@,
            final(self).redexes@ == old(self).redexes@,
            final(self).reuse@ == old(self).reuse@,
            match r {
                Some(v) => v as int == old(self).vars@.len()
                    && final(self).vars@ == old(self).vars@.push(None),
                None => old(self).vars@.len() == STORE_CAP
                    && final(self).vars@ == old(self).vars@,
            },
            final(self).wf(),
    {
        if self.vars.len() < STORE_CAP {
            let v = self.vars.len() as u32;
            self.vars.push(None);
            Some(v)
        } else {
            None
        }
    }
}

} // verus!
