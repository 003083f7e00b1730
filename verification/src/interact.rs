//! The interaction engine.  A redex — a pair of ports whose principal
//! connections meet — is classified into one of a closed rule set by the
//! tags alone, and the matching rule performs a local graph rewrite:
//! bounded work, touching only the operand nodes and their direct
//! auxiliaries, and yielding a bounded number of new redexes.
//!
//! Each rule's effect is stated exactly by a postcondition spec over the
//! net's stores, and the driver `reduce` pops redexes until none remain.

use vstd::prelude::*;

verus! {

use crate::book::Book;
use crate::net::{spec_alloc, GNet, Node, STORE_CAP};
use crate::numb::Numb;
use crate::port::{Port, Tag, VAL_MASK};

/// The closed set of interaction rules.
#[derive(Debug, Clone, Copy, PartialEq, Eq, Structural)]
pub enum Rule {
    /// A variable meets anything: resolve the pending wire.
    Link,
    /// Two constructor-kind nodes with the same label annihilate.
    Anni,
    /// Two constructor-kind nodes with different labels commute.
    Comm,
    /// An eraser consumes a leaf or propagates into a node.
    Eras,
    /// A global reference expands to a fresh copy of its definition.
    Deref,
    /// An application meets a lambda: beta-reduce.
    Call,
    /// A duplicator copies a non-matching operand.
    Copy,
    /// Numerals reach a binary operator: apply its arithmetic.
    Oper,
}

/// A failed rewrite.  Every failure surfaces the offending port pair; no
/// partially applied rewrite is observable for lookup failures, and node
/// exhaustion is reported distinctly so a driver can back off.
#[derive(Debug, Clone, Copy, PartialEq, Eq, Structural)]
pub enum InteractError {
    /// A dereferenced name is absent from the book: a hard failure.
    Lookup { a: Port, b: Port },
    /// The pair falls outside the closed interaction relation: an
    /// internal defect in net construction, never an expected outcome.
    Invalid { a: Port, b: Port, rule: Rule },
    /// Node or variable storage is exhausted.
    Exhausted { a: Port, b: Port },
}

/// Classify a pair of ports, symmetrically in the operands.  Erasing a
/// reference discards it without expansion; otherwise references expand
/// before variables link, so a reference meeting a variable dereferences.
/// Pairs outside the closed relation fall back to `Link`, whose rewrite
/// rejects them as an internal defect.
pub open spec fn spec_rule(a: Port, b: Port) -> Rule {
    match (a.tag(), b.tag()) {
        (Tag::Ref, Tag::Era) | (Tag::Era, Tag::Ref) => Rule::Eras,
        (Tag::Ref, _) | (_, Tag::Ref) => Rule::Deref,
        (Tag::Var, _) | (_, Tag::Var) => Rule::Link,
        (Tag::Era, _) | (_, Tag::Era) => Rule::Eras,
        (Tag::Num, Tag::Num) | (Tag::Num, Tag::Opr) | (Tag::Opr, Tag::Num) => Rule::Oper,
        (Tag::Con, Tag::Con) | (Tag::Dup, Tag::Dup) | (Tag::App, Tag::App) => Rule::Anni,
        (Tag::Con, Tag::App) | (Tag::App, Tag::Con) => Rule::Call,
        (Tag::Con, Tag::Dup)
        | (Tag::Dup, Tag::Con)
        | (Tag::App, Tag::Dup)
        | (Tag::Dup, Tag::App) => Rule::Comm,
        (Tag::Dup, Tag::Num)
        | (Tag::Num, Tag::Dup)
        | (Tag::Dup, Tag::Opr)
        | (Tag::Opr, Tag::Dup) => Rule::Copy,
        _ => Rule::Link,
    }
}

/// Select the interaction rule for a pair of ports.
pub fn get_rule(a: Port, b: Port) -> (r: Rule)
    ensures
        r == spec_rule(a, b),
{
    match (a.tag(), b.tag()) {
        (Tag::Ref, Tag::Era) | (Tag::Era, Tag::Ref) => Rule::Eras,
        (Tag::Ref, _) | (_, Tag::Ref) => Rule::Deref,
        (Tag::Var, _) | (_, Tag::Var) => Rule::Link,
        (Tag::Era, _) | (_, Tag::Era) => Rule::Eras,
        (Tag::Num, Tag::Num) | (Tag::Num, Tag::Opr) | (Tag::Opr, Tag::Num) => Rule::Oper,
        (Tag::Con, Tag::Con) | (Tag::Dup, Tag::Dup) | (Tag::App, Tag::App) => Rule::Anni,
        (Tag::Con, Tag::App) | (Tag::App, Tag::Con) => Rule::Call,
        (Tag::Con, Tag::Dup)
        | (Tag::Dup, Tag::Con)
        | (Tag::App, Tag::Dup)
        | (Tag::Dup, Tag::App) => Rule::Comm,
        (Tag::Dup, Tag::Num)
        | (Tag::Num, Tag::Dup)
        | (Tag::Dup, Tag::Opr)
        | (Tag::Opr, Tag::Dup) => Rule::Copy,
        _ => Rule::Link,
    }
}

/// Whether a tag addresses the node store.
pub open spec fn is_node_tag(t: Tag) -> bool {
    t == Tag::Con || t == Tag::Dup || t == Tag::App || t == Tag::Opr
}

/// The variable slots after growing on demand to make index `v` valid.
pub open spec fn spec_grow_vars(vars: Seq<Option<Port>>, v: int) -> Seq<Option<Port>> {
    if v < vars.len() {
        vars
    } else {
        vars + Seq::new((v + 1 - vars.len()) as nat, |k: int| None::<Port>)
    }
}

/// Effect of the Link rule.  The variable's slot is grown into existence
/// if fresh; an empty slot records the other port as the wire's pending
/// substitution; a filled slot is consumed, and the recorded port meets
/// the other port as a new redex.  A pair without a variable is rejected
/// as an internal defect, with the net untouched.
pub open spec fn link_post(pre: GNet, post: GNet, a: Port, b: Port, r: Result<
    (),
    InteractError,
>) -> bool {
    if a.tag() != Tag::Var && b.tag() != Tag::Var {
        &&& r == Err::<(), InteractError>(InteractError::Invalid { a, b, rule: Rule::Link })
        &&& post.same_state(pre)
    } else {
        let x = if a.tag() == Tag::Var {
            a
        } else {
            b
        };
        let y = if a.tag() == Tag::Var {
            b
        } else {
            a
        };
        let v = x.val() as int;
        let grown = spec_grow_vars(pre.vars@, v);
        &&& r == Ok::<(), InteractError>(())
        &&& post.nodes@ == pre.nodes@
        &&& post.reuse@ == pre.reuse@
        &&& match grown[v] {
            None => post.vars@ == grown.update(v, Some(y)) && post.redexes@ == pre.redexes@,
            Some(c) => post.vars@ == grown.update(v, None) && post.redexes@ == pre.redexes@.push(
                (c, y),
            ),
        }
    }
}

/// Effect of annihilation (and of beta-reduction, which cross-wires the
/// same way): each node's auxiliaries meet the other's counterpart
/// auxiliaries as new redexes, and both consumed nodes are freed.
pub open spec fn cross_post(pre: GNet, post: GNet, a: Port, b: Port, r: Result<
    (),
    InteractError,
>) -> bool {
    let n1 = pre.nodes@[a.val() as int];
    let n2 = pre.nodes@[b.val() as int];
    &&& r == Ok::<(), InteractError>(())
    &&& post.nodes@ == pre.nodes@
    &&& post.vars@ == pre.vars@
    &&& post.redexes@ == pre.redexes@.push((n1.a, n2.a)).push((n1.b, n2.b))
    &&& post.reuse@ == if a.val() == b.val() {
        pre.reuse@.push(a.val())
    } else {
        pre.reuse@.push(a.val()).push(b.val())
    }
}

/// Effect of erasure: a leaf operand (numeral, reference, or another
/// eraser) is discarded outright; a node operand is freed and the eraser
/// propagates to each of its auxiliaries as a new redex.
pub open spec fn eras_post(pre: GNet, post: GNet, a: Port, b: Port, r: Result<
    (),
    InteractError,
>) -> bool {
    let e = if a.tag() == Tag::Era {
        a
    } else {
        b
    };
    let x = if a.tag() == Tag::Era {
        b
    } else {
        a
    };
    if is_node_tag(x.tag()) {
        let node = pre.nodes@[x.val() as int];
        &&& r == Ok::<(), InteractError>(())
        &&& post.nodes@ == pre.nodes@
        &&& post.vars@ == pre.vars@
        &&& post.redexes@ == pre.redexes@.push((e, node.a)).push((e, node.b))
        &&& post.reuse@ == pre.reuse@.push(x.val())
    } else {
        r == Ok::<(), InteractError>(()) && post.same_state(pre)
    }
}

/// Operator labels an operator node can carry.
pub const OP_ADD: u32 = 0;

pub const OP_SUB: u32 = 1;

pub const OP_MUL: u32 = 2;

pub const OP_DIV: u32 = 3;

/// The operation a label selects, applied to two 29-bit payloads with
/// Numb's wrapping semantics, truncated back to the payload width.  An
/// unknown label falls back to addition.
pub open spec fn spec_apply_op(lab: u32, x: u32, y: u32) -> u32 {
    let nx = Numb(x as u64);
    let ny = Numb(y as u64);
    let n = if lab == OP_SUB {
        nx.spec_sub(ny)
    } else if lab == OP_MUL {
        nx.spec_mul(ny)
    } else if lab == OP_DIV {
        nx.spec_div(ny)
    } else {
        nx.spec_add(ny)
    };
    ((n.0 & (VAL_MASK as u64)) as u32)
}

/// Apply the operation an operator label selects.
pub fn apply_op(lab: u32, x: u32, y: u32) -> (r: u32)
    ensures
        r == spec_apply_op(lab, x, y),
        r <= VAL_MASK,
{
    let nx = Numb(x as u64);
    let ny = Numb(y as u64);
    let n = if lab == OP_SUB {
        nx.sub(ny)
    } else if lab == OP_MUL {
        nx.mul(ny)
    } else if lab == OP_DIV {
        nx.div(ny)
    } else {
        nx.add(ny)
    };
    let masked: u64 = n.0 & (VAL_MASK as u64);
    proof {
        let m = n.0;
        assert(m & 0x1FFF_FFFFu64 <= 0x1FFF_FFFF) by (bit_vector);
    }
    masked as u32
}

/// Effect of the numeric rule.  Two bare numerals consume one another and
/// nothing remains.  A numeral meeting an operator node either fires the
/// operation — when the node has already bound its left operand in its
/// first slot — wiring the result numeral against the return slot, or
/// binds the arriving numeral as the left operand: a fresh operator node
/// holding it is re-aimed at the port the old first slot led to.
pub open spec fn oper_post(pre: GNet, post: GNet, a: Port, b: Port, r: Result<
    (),
    InteractError,
>) -> bool {
    if a.tag() == Tag::Num && b.tag() == Tag::Num {
        r == Ok::<(), InteractError>(()) && post.same_state(pre)
    } else {
        let n = if a.tag() == Tag::Num {
            a
        } else {
            b
        };
        let o = if a.tag() == Tag::Num {
            b
        } else {
            a
        };
        let node = pre.nodes@[o.val() as int];
        if node.a.tag() == Tag::Num {
            let res = spec_apply_op(node.lab, node.a.val(), n.val());
            &&& r == Ok::<(), InteractError>(())
            &&& post.nodes@ == pre.nodes@
            &&& post.vars@ == pre.vars@
            &&& post.redexes@ == pre.redexes@.push((node.b, Port::new(Tag::Num, res)))
            &&& post.reuse@ == pre.reuse@.push(o.val())
        } else {
            if pre.reuse@.len() > 0 || pre.nodes@.len() < STORE_CAP {
                let (nodes, reuse, at) = spec_alloc(
                    pre.nodes@,
                    pre.reuse@,
                    Node { lab: node.lab, a: Port::new(Tag::Num, n.val()), b: node.b },
                );
                &&& r == Ok::<(), InteractError>(())
                &&& post.nodes@ == nodes
                &&& post.vars@ == pre.vars@
                &&& post.redexes@ == pre.redexes@.push((node.a, Port::new(Tag::Opr, at as u32)))
                &&& post.reuse@ == reuse.push(o.val())
            } else {
                &&& r == Err::<(), InteractError>(InteractError::Exhausted { a, b })
                &&& post.same_state(pre)
            }
        }
    }
}

/// The payload of an in-range address survives masking.
proof fn lemma_addr_fits(v: u32)
    requires
        v < 0x2000_0000,
    ensures
        v & VAL_MASK == v,
{
    assert(v < 0x2000_0000 ==> v & 0x1FFF_FFFFu32 == v) by (bit_vector);
}

/// Resolve a variable's pending wire (the Link rule).
fn interact_link(net: &mut GNet, a: Port, b: Port) -> (r: Result<(), InteractError>)
    requires
        old(net).wf(),
        old(net).port_ok(a),
        old(net).port_ok(b),
    ensures
        final(net).wf(),
        link_post(*old(net), *final(net), a, b, r),
{
    let (x, y) = if a.tag() == Tag::Var {
        (a, b)
    } else {
        (b, a)
    };
    if !(x.tag() == Tag::Var) {
        return Err(InteractError::Invalid { a, b, rule: Rule::Link });
    }
    let v = x.val() as usize;
    if net.vars.len() <= v {
        while net.vars.len() <= v
            invariant
                net.nodes@ == old(net).nodes@,
                net.redexes@ == old(net).redexes@,
                net.reuse@ == old(net).reuse@,
                net.vars@.len() >= old(net).vars@.len(),
                net.vars@.len() <= v + 1,
                v < STORE_CAP,
                forall|k: int| 0 <= k < old(net).vars@.len() ==> net.vars@[k] == old(net).vars@[k],
                forall|k: int|
                    old(net).vars@.len() <= k < net.vars@.len() ==> net.vars@[k] is None,
                net.wf(),
            decreases v + 1 - net.vars@.len(),
        {
            net.vars.push(None);
        }
    }
    proof {
        assert(net.vars@ =~= spec_grow_vars(old(net).vars@, v as int));
    }
    let slot = net.vars[v];
    match slot {
        None => {
            net.vars[v] = Some(y);
            Ok(())
        }
        Some(c) => {
            net.vars[v] = None;
            net.push_redex(c, y);
            Ok(())
        }
    }
}

/// Cross-wire two nodes and free them: annihilation, and also
/// beta-reduction, whose wiring is the same positional crossing.
fn interact_cross(net: &mut GNet, a: Port, b: Port) -> (r: Result<(), InteractError>)
    requires
        old(net).wf(),
        old(net).port_ok(a),
        old(net).port_ok(b),
        is_node_tag(a.tag()),
        is_node_tag(b.tag()),
    ensures
        final(net).wf(),
        cross_post(*old(net), *final(net), a, b, r),
{
    let n1 = net.node(a.val());
    let n2 = net.node(b.val());
    net.push_redex(n1.a, n2.a);
    net.push_redex(n1.b, n2.b);
    net.free_node(a.val());
    if a.val() != b.val() {
        net.free_node(b.val());
    }
    Ok(())
}

/// Discard a leaf or propagate the eraser into a node's auxiliaries.
fn interact_eras(net: &mut GNet, a: Port, b: Port) -> (r: Result<(), InteractError>)
    requires
        old(net).wf(),
        old(net).port_ok(a),
        old(net).port_ok(b),
        a.tag() == Tag::Era || b.tag() == Tag::Era,
    ensures
        final(net).wf(),
        eras_post(*old(net), *final(net), a, b, r),
{
    let (e, x) = if a.tag() == Tag::Era {
        (a, b)
    } else {
        (b, a)
    };
    match x.tag() {
        Tag::Con | Tag::Dup | Tag::App | Tag::Opr => {
            let node = net.node(x.val());
            net.push_redex(e, node.a);
            net.push_redex(e, node.b);
            net.free_node(x.val());
            Ok(())
        }
        _ => Ok(()),
    }
}

/// Apply an operator or bind its left operand (the Oper rule).
fn interact_oper(net: &mut GNet, a: Port, b: Port) -> (r: Result<(), InteractError>)
    requires
        old(net).wf(),
        old(net).port_ok(a),
        old(net).port_ok(b),
        spec_rule(a, b) == Rule::Oper,
    ensures
        final(net).wf(),
        oper_post(*old(net), *final(net), a, b, r),
{
    if a.tag() == Tag::Num && b.tag() == Tag::Num {
        // Two bare numerals collapse; no destination remains for a result.
        return Ok(());
    }
    let (n, o) = if a.tag() == Tag::Num {
        (a, b)
    } else {
        (b, a)
    };
    let node = net.node(o.val());
    if node.a.tag() == Tag::Num {
        let res = apply_op(node.lab, node.a.val(), n.val());
        net.push_redex(node.b, Port::new(Tag::Num, res));
        net.free_node(o.val());
        Ok(())
    } else {
        match net.alloc_node(node.lab, Port::new(Tag::Num, n.val()), node.b) {
            Some(addr) => {
                proof {
                    lemma_addr_fits(addr);
                }
                net.push_redex(node.a, Port::new(Tag::Opr, addr));
                net.free_node(o.val());
                Ok(())
            }
            None => Err(InteractError::Exhausted { a, b }),
        }
    }
}

/// Effect of commutation: four fresh wires are opened, each consumed node
/// is copied once per auxiliary of the other, the copies are cross-wired
/// through the wires, each original auxiliary meets a copy of the opposite
/// node as a new redex, and both originals are freed.  Exhaustion of
/// either store is reported with the net untouched.
pub open spec fn comm_post(pre: GNet, post: GNet, a: Port, b: Port, r: Result<
    (),
    InteractError,
>) -> bool {
    let n1 = pre.nodes@[a.val() as int];
    let n2 = pre.nodes@[b.val() as int];
    if 4 <= pre.reuse@.len() + (STORE_CAP - pre.nodes@.len()) && pre.vars@.len() + 4
        <= STORE_CAP {
        let vb = pre.vars@.len() as int;
        let w0 = Port::new(Tag::Var, vb as u32);
        let w1 = Port::new(Tag::Var, (vb + 1) as u32);
        let w2 = Port::new(Tag::Var, (vb + 2) as u32);
        let w3 = Port::new(Tag::Var, (vb + 3) as u32);
        let (nodes1, reuse1, kb1) = spec_alloc(
            pre.nodes@,
            pre.reuse@,
            Node { lab: n2.lab, a: w0, b: w2 },
        );
        let (nodes2, reuse2, kb2) = spec_alloc(nodes1, reuse1, Node { lab: n2.lab, a: w1, b: w3 });
        let (nodes3, reuse3, ka1) = spec_alloc(nodes2, reuse2, Node { lab: n1.lab, a: w0, b: w1 });
        let (nodes4, reuse4, ka2) = spec_alloc(nodes3, reuse3, Node { lab: n1.lab, a: w2, b: w3 });
        &&& r == Ok::<(), InteractError>(())
        &&& post.nodes@ == nodes4
        &&& post.vars@ == pre.vars@ + Seq::new(4, |k: int| None::<Port>)
        &&& post.redexes@ == pre.redexes@.push((n1.a, Port::new(b.tag(), kb1 as u32))).push(
            (n1.b, Port::new(b.tag(), kb2 as u32)),
        ).push((n2.a, Port::new(a.tag(), ka1 as u32))).push((n2.b, Port::new(a.tag(), ka2 as u32)))
        &&& post.reuse@ == if a.val() == b.val() {
            reuse4.push(a.val())
        } else {
            reuse4.push(a.val()).push(b.val())
        }
    } else {
        &&& r == Err::<(), InteractError>(InteractError::Exhausted { a, b })
        &&& post.same_state(pre)
    }
}

/// Effect of the Copy rule: a duplicator meeting a numeral sends the
/// numeral to both of its auxiliaries and is freed; a duplicator meeting
/// an operator node commutes with it.
pub open spec fn copy_post(pre: GNet, post: GNet, a: Port, b: Port, r: Result<
    (),
    InteractError,
>) -> bool {
    let d = if a.tag() == Tag::Dup {
        a
    } else {
        b
    };
    let x = if a.tag() == Tag::Dup {
        b
    } else {
        a
    };
    if x.tag() == Tag::Num {
        let node = pre.nodes@[d.val() as int];
        &&& r == Ok::<(), InteractError>(())
        &&& post.nodes@ == pre.nodes@
        &&& post.vars@ == pre.vars@
        &&& post.redexes@ == pre.redexes@.push((node.a, x)).push((node.b, x))
        &&& post.reuse@ == pre.reuse@.push(d.val())
    } else {
        comm_post(pre, post, a, b, r)
    }
}

/// Commute two nodes through four fresh wires (the Comm rule, and the
/// Copy rule when the copied operand is itself a node).
fn interact_comm(net: &mut GNet, a: Port, b: Port) -> (r: Result<(), InteractError>)
    requires
        old(net).wf(),
        old(net).port_ok(a),
        old(net).port_ok(b),
        is_node_tag(a.tag()),
        is_node_tag(b.tag()),
    ensures
        final(net).wf(),
        comm_post(*old(net), *final(net), a, b, r),
{
    if !net.has_node_room(4) || !net.has_var_room(4) {
        return Err(InteractError::Exhausted { a, b });
    }
    let n1 = net.node(a.val());
    let n2 = net.node(b.val());
    let v0 = match net.alloc_var() {
        Some(v) => v,
        None => {
            proof {
                assert(false);
            }
            return Err(InteractError::Exhausted { a, b });
        }
    };
    let v1 = match net.alloc_var() {
        Some(v) => v,
        None => {
            proof {
                assert(false);
            }
            return Err(InteractError::Exhausted { a, b });
        }
    };
    let v2 = match net.alloc_var() {
        Some(v) => v,
        None => {
            proof {
                assert(false);
            }
            return Err(InteractError::Exhausted { a, b });
        }
    };
    let v3 = match net.alloc_var() {
        Some(v) => v,
        None => {
            proof {
                assert(false);
            }
            return Err(InteractError::Exhausted { a, b });
        }
    };
    proof {
        lemma_addr_fits(v0);
        lemma_addr_fits(v1);
        lemma_addr_fits(v2);
        lemma_addr_fits(v3);
    }
    let w0 = Port::new(Tag::Var, v0);
    let w1 = Port::new(Tag::Var, v1);
    let w2 = Port::new(Tag::Var, v2);
    let w3 = Port::new(Tag::Var, v3);
    let kb1 = match net.alloc_node(n2.lab, w0, w2) {
        Some(k) => k,
        None => {
            proof {
                assert(false);
            }
            return Err(InteractError::Exhausted { a, b });
        }
    };
    let kb2 = match net.alloc_node(n2.lab, w1, w3) {
        Some(k) => k,
        None => {
            proof {
                assert(false);
            }
            return Err(InteractError::Exhausted { a, b });
        }
    };
    let ka1 = match net.alloc_node(n1.lab, w0, w1) {
        Some(k) => k,
        None => {
            proof {
                assert(false);
            }
            return Err(InteractError::Exhausted { a, b });
        }
    };
    let ka2 = match net.alloc_node(n1.lab, w2, w3) {
        Some(k) => k,
        None => {
            proof {
                assert(false);
            }
            return Err(InteractError::Exhausted { a, b });
        }
    };
    proof {
        lemma_addr_fits(kb1);
        lemma_addr_fits(kb2);
        lemma_addr_fits(ka1);
        lemma_addr_fits(ka2);
    }
    net.push_redex(n1.a, Port::new(b.tag(), kb1));
    net.push_redex(n1.b, Port::new(b.tag(), kb2));
    net.push_redex(n2.a, Port::new(a.tag(), ka1));
    net.push_redex(n2.b, Port::new(a.tag(), ka2));
    net.free_node(a.val());
    if a.val() != b.val() {
        net.free_node(b.val());
    }
    proof {
        assert(net.vars@ =~= old(net).vars@ + Seq::new(4, |k: int| None::<Port>));
    }
    Ok(())
}

/// Copy a numeral to both duplicator outputs, or commute with a node.
fn interact_copy(net: &mut GNet, a: Port, b: Port) -> (r: Result<(), InteractError>)
    requires
        old(net).wf(),
        old(net).port_ok(a),
        old(net).port_ok(b),
        spec_rule(a, b) == Rule::Copy,
    ensures
        final(net).wf(),
        copy_post(*old(net), *final(net), a, b, r),
{
    let (d, x) = if a.tag() == Tag::Dup {
        (a, b)
    } else {
        (b, a)
    };
    if x.tag() == Tag::Num {
        let node = net.node(d.val());
        net.push_redex(node.a, x);
        net.push_redex(node.b, x);
        net.free_node(d.val());
        Ok(())
    } else {
        interact_comm(net, a, b)
    }
}

/// A template port remapped into the instance's address space: node
/// addresses shift by the node base, variable indices by the slot base,
/// leaves pass through.
pub open spec fn spec_remap(p: Port, nb: int, vb: int) -> Port {
    if is_node_tag(p.tag()) {
        Port::new(p.tag(), (p.val() + nb) as u32)
    } else if p.tag() == Tag::Var {
        Port::new(Tag::Var, (p.val() + vb) as u32)
    } else {
        p
    }
}

/// A template node with both auxiliaries remapped.
pub open spec fn spec_remap_node(n: Node, nb: int, vb: int) -> Node {
    Node { lab: n.lab, a: spec_remap(n.a, nb, vb), b: spec_remap(n.b, nb, vb) }
}

/// A template variable slot with its content, if any, remapped.
pub open spec fn spec_remap_slot(s: Option<Port>, nb: int, vb: int) -> Option<Port> {
    match s {
        Some(p) => Some(spec_remap(p, nb, vb)),
        None => None,
    }
}

/// The port a template's root slot designates.
pub open spec fn spec_slot_port(s: Option<Port>) -> Port {
    match s {
        Some(p) => p,
        None => Port::new(Tag::Era, 0),
    }
}

/// Effect of dereferencing a global reference.  An index outside the book
/// is a lookup failure that leaves the net in its pre-call state.  A found
/// definition's template net is instantiated as a fresh copy: its nodes,
/// variable slots and pending redexes are appended with every address
/// remapped, the root slot is consumed, and the instance's root port meets
/// the other operand as a new redex.
pub open spec fn deref_post(pre: GNet, post: GNet, book: Book, a: Port, b: Port, r: Result<
    (),
    InteractError,
>) -> bool {
    let f = if a.tag() == Tag::Ref {
        a
    } else {
        b
    };
    let x = if a.tag() == Tag::Ref {
        b
    } else {
        a
    };
    let idx = f.val() as int;
    if idx >= book.entries().len() {
        &&& r == Err::<(), InteractError>(InteractError::Lookup { a, b })
        &&& post.same_state(pre)
    } else {
        let tpl = book.entries()[idx].1.net;
        let nb = pre.nodes@.len() as int;
        let vb = pre.vars@.len() as int;
        if nb + tpl.nodes@.len() <= STORE_CAP && vb + tpl.vars@.len() <= STORE_CAP {
            let root = spec_remap(spec_slot_port(tpl.vars@[0]), nb, vb);
            &&& r == Ok::<(), InteractError>(())
            &&& post.nodes@ == pre.nodes@ + tpl.nodes@.map_values(
                |n: Node| spec_remap_node(n, nb, vb),
            )
            &&& post.vars@ == pre.vars@ + Seq::new(
                tpl.vars@.len(),
                |k: int|
                    if k == 0 {
                        None
                    } else {
                        spec_remap_slot(tpl.vars@[k], nb, vb)
                    },
            )
            &&& post.redexes@ == pre.redexes@ + tpl.redexes@.map_values(
                |pr: (Port, Port)| (spec_remap(pr.0, nb, vb), spec_remap(pr.1, nb, vb)),
            ).push((root, x))
            &&& post.reuse@ == pre.reuse@
        } else {
            &&& r == Err::<(), InteractError>(InteractError::Exhausted { a, b })
            &&& post.same_state(pre)
        }
    }
}

/// Remap one template port into the instance's address space.
fn remap_port(p: Port, nb: u32, vb: u32) -> (r: Port)
    requires
        nb <= STORE_CAP,
        vb <= STORE_CAP,
    ensures
        r == spec_remap(p, nb as int, vb as int),
{
    match p.tag() {
        Tag::Con | Tag::Dup | Tag::App | Tag::Opr => Port::new(p.tag(), p.val() + nb),
        Tag::Var => Port::new(Tag::Var, p.val() + vb),
        _ => p,
    }
}

/// A remapped template port is in range of any net whose node store
/// covers the instance's address block.
proof fn lemma_remap_ok(p: Port, nb: int, vb: int, tn: int, tv: int, post: GNet)
    requires
        0 <= nb,
        0 <= vb,
        nb + tn <= STORE_CAP,
        is_node_tag(p.tag()) ==> (p.val() as int) < tn,
        post.nodes@.len() >= nb + tn,
    ensures
        post.port_ok(spec_remap(p, nb, vb)),
{
    crate::port::lemma_val_bounded(p);
    if is_node_tag(p.tag()) {
        let w = (p.val() + nb) as u32;
        crate::port::lemma_port_roundtrip(p.tag(), w);
        lemma_addr_fits(w);
    } else if p.tag() == Tag::Var {
        crate::port::lemma_port_roundtrip(Tag::Var, (p.val() + vb) as u32);
    }
}

/// Expand a global reference into a fresh instance of its definition.
fn interact_deref(net: &mut GNet, book: &Book, a: Port, b: Port) -> (r: Result<
    (),
    InteractError,
>)
    requires
        old(net).wf(),
        old(net).port_ok(a),
        old(net).port_ok(b),
        book.wf(),
        spec_rule(a, b) == Rule::Deref,
    ensures
        final(net).wf(),
        deref_post(*old(net), *final(net), *book, a, b, r),
{
    let (f, x) = if a.tag() == Tag::Ref {
        (a, b)
    } else {
        (b, a)
    };
    let idx = f.val() as usize;
    if idx >= book.len() {
        return Err(InteractError::Lookup { a, b });
    }
    let def = book.def_at(idx);
    proof {
        assert(book.entries()[idx as int].1.wf_def());
    }
    let tpl = &def.net;
    let tn = tpl.nodes.len();
    let tv = tpl.vars.len();
    let tr = tpl.redexes.len();
    let nb = net.nodes.len();
    let vb = net.vars.len();
    if tn > STORE_CAP - nb || tv > STORE_CAP - vb {
        return Err(InteractError::Exhausted { a, b });
    }
    let nb32 = nb as u32;
    let vb32 = vb as u32;
    let ghost fnode = |n: Node| spec_remap_node(n, nb as int, vb as int);
    let ghost fpair = |pr: (Port, Port)|
        (spec_remap(pr.0, nb as int, vb as int), spec_remap(pr.1, nb as int, vb as int));
    // Copy the template's nodes, remapped.
    let mut i: usize = 0;
    while i < tn
        invariant
            i <= tn,
            tn == tpl.nodes@.len(),
            nb == old(net).nodes@.len(),
            vb == old(net).vars@.len(),
            nb + tn <= STORE_CAP,
            vb + tv <= STORE_CAP,
            nb32 == nb as u32,
            vb32 == vb as u32,
            fnode == (|n: Node| spec_remap_node(n, nb as int, vb as int)),
            net.nodes@ == old(net).nodes@ + tpl.nodes@.take(i as int).map_values(fnode),
            net.redexes@ == old(net).redexes@,
            net.vars@ == old(net).vars@,
            net.reuse@ == old(net).reuse@,
        decreases tn - i,
    {
        let n = tpl.nodes[i];
        let node = Node {
            lab: n.lab,
            a: remap_port(n.a, nb32, vb32),
            b: remap_port(n.b, nb32, vb32),
        };
        net.nodes.push(node);
        proof {
            assert(tpl.nodes@.take(i + 1) =~= tpl.nodes@.take(i as int).push(tpl.nodes@[i as int]));
            assert(tpl.nodes@.take(i + 1).map_values(fnode) =~= tpl.nodes@.take(
                i as int,
            ).map_values(fnode).push(fnode(tpl.nodes@[i as int])));
        }
        i += 1;
    }
    // Copy the template's variable slots; slot 0, the root, is consumed.
    net.vars.push(None);
    let mut i: usize = 1;
    while i < tv
        invariant
            1 <= i <= tv,
            tv == tpl.vars@.len(),
            nb == old(net).nodes@.len(),
            vb == old(net).vars@.len(),
            nb + tn <= STORE_CAP,
            vb + tv <= STORE_CAP,
            nb32 == nb as u32,
            vb32 == vb as u32,
            net.nodes@ == old(net).nodes@ + tpl.nodes@.map_values(fnode),
            tn == tpl.nodes@.len(),
            fnode == (|n: Node| spec_remap_node(n, nb as int, vb as int)),
            net.redexes@ == old(net).redexes@,
            net.reuse@ == old(net).reuse@,
            net.vars@.len() == vb + i,
            forall|k: int| 0 <= k < vb ==> net.vars@[k] == old(net).vars@[k],
            net.vars@[vb as int] is None,
            forall|k: int|
                1 <= k < i ==> net.vars@[vb + k] == spec_remap_slot(
                    tpl.vars@[k],
                    nb as int,
                    vb as int,
                ),
        decreases tv - i,
    {
        match tpl.vars[i] {
            Some(p) => {
                net.vars.push(Some(remap_port(p, nb32, vb32)));
            }
            None => {
                net.vars.push(None);
            }
        }
        i += 1;
    }
    proof {
        assert(net.vars@ =~= old(net).vars@ + Seq::new(
            tpl.vars@.len(),
            |k: int|
                if k == 0 {
                    None
                } else {
                    spec_remap_slot(tpl.vars@[k], nb as int, vb as int)
                },
        ));
    }
    // Re-queue the template's own pending redexes, remapped.
    let mut i: usize = 0;
    while i < tr
        invariant
            i <= tr,
            tr == tpl.redexes@.len(),
            nb == old(net).nodes@.len(),
            vb == old(net).vars@.len(),
            nb + tn <= STORE_CAP,
            vb + tv <= STORE_CAP,
            nb32 == nb as u32,
            vb32 == vb as u32,
            net.nodes@ == old(net).nodes@ + tpl.nodes@.map_values(fnode),
            tn == tpl.nodes@.len(),
            tv == tpl.vars@.len(),
            fnode == (|n: Node| spec_remap_node(n, nb as int, vb as int)),
            fpair == (|pr: (Port, Port)|
                (spec_remap(pr.0, nb as int, vb as int), spec_remap(pr.1, nb as int, vb as int))),
            net.vars@ == old(net).vars@ + Seq::new(
                tpl.vars@.len(),
                |k: int|
                    if k == 0 {
                        None
                    } else {
                        spec_remap_slot(tpl.vars@[k], nb as int, vb as int)
                    },
            ),
            net.reuse@ == old(net).reuse@,
            net.redexes@ == old(net).redexes@ + tpl.redexes@.take(i as int).map_values(fpair),
        decreases tr - i,
    {
        let pair = tpl.redexes[i];
        let p = remap_port(pair.0, nb32, vb32);
        let q = remap_port(pair.1, nb32, vb32);
        net.redexes.push((p, q));
        proof {
            assert(tpl.redexes@.take(i + 1) =~= tpl.redexes@.take(i as int).push(
                tpl.redexes@[i as int],
            ));
            assert(tpl.redexes@.take(i + 1).map_values(fpair) =~= tpl.redexes@.take(
                i as int,
            ).map_values(fpair).push(fpair(tpl.redexes@[i as int])));
        }
        i += 1;
    }
    // The instance's root meets the original other operand.
    let root0 = match tpl.vars[0] {
        Some(p) => p,
        None => Port::new(Tag::Era, 0),
    };
    let root = remap_port(root0, nb32, vb32);
    net.redexes.push((root, x));
    proof {
        let postn = *net;
        let pre = *old(net);
        let tpls = book.entries()[idx as int].1.net;
        assert(tpl.redexes@.take(tr as int) =~= tpl.redexes@);
        assert(tpl.nodes@.take(tn as int) =~= tpl.nodes@);
        // Every port stored in the instance is in range of the new net.
        assert forall|j: int| 0 <= j < postn.nodes@.len() implies postn.node_ok(
            #[trigger] postn.nodes@[j],
        ) by {
            if j < nb {
                assert(pre.node_ok(pre.nodes@[j]));
            } else {
                let tn_node = tpls.nodes@[j - nb];
                assert(postn.nodes@[j] == spec_remap_node(tn_node, nb as int, vb as int));
                assert(tpls.node_ok(tn_node));
                lemma_remap_ok(tn_node.a, nb as int, vb as int, tn as int, tv as int, postn);
                lemma_remap_ok(tn_node.b, nb as int, vb as int, tn as int, tv as int, postn);
            }
        }
        assert forall|j: int| 0 <= j < postn.redexes@.len() implies postn.port_ok(
            #[trigger] postn.redexes@[j].0,
        ) && postn.port_ok(postn.redexes@[j].1) by {
            let pr = pre.redexes@.len() as int;
            if j < pr {
                assert(pre.port_ok(pre.redexes@[j].0) && pre.port_ok(pre.redexes@[j].1));
            } else if j < pr + tr {
                let tp = tpls.redexes@[j - pr];
                assert(postn.redexes@[j] == fpair(tp));
                assert(tpls.port_ok(tp.0) && tpls.port_ok(tp.1));
                lemma_remap_ok(tp.0, nb as int, vb as int, tn as int, tv as int, postn);
                lemma_remap_ok(tp.1, nb as int, vb as int, tn as int, tv as int, postn);
            } else {
                assert(postn.redexes@[j] == (root, x));
                assert(tpls.port_ok(spec_slot_port(tpls.vars@[0])));
                lemma_remap_ok(
                    spec_slot_port(tpls.vars@[0]),
                    nb as int,
                    vb as int,
                    tn as int,
                    tv as int,
                    postn,
                );
                assert(pre.port_ok(x));
            }
        }
        assert forall|j: int| 0 <= j < postn.vars@.len() implies match #[trigger] postn.vars@[j] {
            Some(p) => postn.port_ok(p),
            None => true,
        } by {
            if j < vb {
                assert(postn.vars@[j] == pre.vars@[j]);
                assert(match pre.vars@[j] {
                    Some(p) => pre.port_ok(p),
                    None => true,
                });
            } else if j > vb {
                assert(postn.vars@[j] == spec_remap_slot(tpls.vars@[j - vb], nb as int, vb as int));
                match tpls.vars@[j - vb] {
                    Some(p) => {
                        assert(tpls.port_ok(p));
                        lemma_remap_ok(p, nb as int, vb as int, tn as int, tv as int, postn);
                    }
                    None => {}
                }
            }
        }
        assert forall|j: int| 0 <= j < postn.reuse@.len() implies (
        #[trigger] postn.reuse@[j] as int) < postn.nodes@.len() by {
            assert((pre.reuse@[j] as int) < pre.nodes@.len());
        }
        assert(postn.wf());
    }
    Ok(())
}

/// The exact effect of one interaction, by rule.
pub open spec fn interact_post(pre: GNet, post: GNet, book: Book, a: Port, b: Port, r: Result<
    (),
    InteractError,
>) -> bool {
    match spec_rule(a, b) {
        Rule::Link => link_post(pre, post, a, b, r),
        Rule::Anni => cross_post(pre, post, a, b, r),
        Rule::Comm => comm_post(pre, post, a, b, r),
        Rule::Eras => eras_post(pre, post, a, b, r),
        Rule::Deref => deref_post(pre, post, book, a, b, r),
        Rule::Call => cross_post(pre, post, a, b, r),
        Rule::Copy => copy_post(pre, post, a, b, r),
        Rule::Oper => oper_post(pre, post, a, b, r),
    }
}

/// Execute one interaction: classify the redex and apply the matching
/// local rewrite.  On success the net is mutated exactly as the rule's
/// postcondition spec describes; a lookup failure leaves the net in its
/// pre-call state; an unmatched pair is rejected as an internal defect
/// with the net untouched.
pub fn interact(net: &mut GNet, book: &Book, a: Port, b: Port) -> (r: Result<(), InteractError>)
    requires
        old(net).wf(),
        old(net).port_ok(a),
        old(net).port_ok(b),
        book.wf(),
    ensures
        final(net).wf(),
        interact_post(*old(net), *final(net), *book, a, b, r),
{
    match get_rule(a, b) {
        Rule::Link => interact_link(net, a, b),
        Rule::Anni => interact_cross(net, a, b),
        Rule::Comm => interact_comm(net, a, b),
        Rule::Eras => interact_eras(net, a, b),
        Rule::Deref => interact_deref(net, book, a, b),
        Rule::Call => interact_cross(net, a, b),
        Rule::Copy => interact_copy(net, a, b),
        Rule::Oper => interact_oper(net, a, b),
    }
}

/// `p` is `pre` with its last pending redex popped and nothing else
/// changed.
pub open spec fn is_popped(p: GNet, pre: GNet) -> bool {
    &&& p.nodes@ == pre.nodes@
    &&& p.redexes@ == pre.redexes@.drop_last()
    &&& p.vars@ == pre.vars@
    &&& p.reuse@ == pre.reuse@
}

/// One driver step: the last pending redex of `pre` is popped and its
/// rewrite succeeds, producing `post`.
pub open spec fn step_from(pre: GNet, post: GNet, book: Book) -> bool {
    &&& pre.redexes@.len() > 0
    &&& exists|p: GNet|
        #[trigger] is_popped(p, pre) && interact_post(
            p,
            post,
            book,
            pre.redexes@.last().0,
            pre.redexes@.last().1,
            Ok::<(), InteractError>(()),
        )
}

/// Consecutive states in a chain are joined by driver steps.
pub open spec fn chain_ok(states: Seq<GNet>, book: Book) -> bool {
    forall|i: int|
        0 <= i < states.len() - 1 ==> #[trigger] step_from(states[i], states[i + 1], book)
}

/// `post` is reached from `pre` by exactly `n` driver steps, through a
/// chain of intermediate nets.
pub open spec fn steps_to(pre: GNet, post: GNet, book: Book, n: nat) -> bool {
    exists|states: Seq<GNet>|
        {
            &&& #[trigger] chain_ok(states, book)
            &&& states.len() == n + 1
            &&& states.first() == pre
            &&& states.last() == post
        }
}

/// Zero driver steps leave a state where it is.
pub proof fn lemma_steps_to_refl(pre: GNet, book: Book)
    ensures
        steps_to(pre, pre, book, 0),
{
    let states = seq![pre];
    assert(states.first() == pre);
    assert(states.last() == pre);
    assert(chain_ok(states, book));
    assert(states.len() == 0 + 1);
}

/// Appending one successful driver step extends a step chain.
pub proof fn lemma_steps_to_extend(pre: GNet, mid: GNet, post: GNet, book: Book, n: nat)
    requires
        steps_to(pre, mid, book, n),
        step_from(mid, post, book),
    ensures
        steps_to(pre, post, book, (n + 1) as nat),
{
    let states = choose|states: Seq<GNet>|
        {
            &&& #[trigger] chain_ok(states, book)
            &&& states.len() == n + 1
            &&& states.first() == pre
            &&& states.last() == mid
        };
    let ext = states.push(post);
    assert(ext.first() == pre);
    assert(ext.last() == post);
    assert forall|i: int| 0 <= i < ext.len() - 1 implies #[trigger] step_from(
        ext[i],
        ext[i + 1],
        book,
    ) by {
        if i < n {
            assert(ext[i] == states[i]);
            assert(ext[i + 1] == states[i + 1]);
            assert(step_from(states[i], states[i + 1], book));
        } else {
            assert(ext[i] == states.last());
            assert(ext[i + 1] == post);
        }
    }
    assert(chain_ok(ext, book));
    assert(ext.len() == (n + 1) + 1);
}

/// A failed driver step: the last pending redex of `pre` is popped, its
/// rewrite fails with `e` exactly as `interact_post` describes, and the
/// redex is restored on top of whatever that failure left behind.
pub open spec fn failed_step(pre: GNet, post: GNet, book: Book, e: InteractError) -> bool {
    &&& pre.redexes@.len() > 0
    &&& exists|p: GNet, q: GNet|
        {
            &&& is_popped(p, pre)
            &&& #[trigger] interact_post(
                p,
                q,
                book,
                pre.redexes@.last().0,
                pre.redexes@.last().1,
                Err::<(), InteractError>(e),
            )
            &&& post.nodes@ == q.nodes@
            &&& post.redexes@ == q.redexes@.push(pre.redexes@.last())
            &&& post.vars@ == q.vars@
            &&& post.reuse@ == q.reuse@
        }
}

/// Drive reduction: pop and rewrite pending redexes until the set is
/// empty or `limit` rewrites have been performed, and return how many
/// were performed.  A successful run performs exactly that many driver
/// steps, each popping the last pending redex and rewriting it as
/// `interact_post` describes; a quiescent net is returned unchanged after
/// zero rewrites.  On failure, some number of steps under the budget ran
/// first, the failing rewrite behaved exactly as `interact_post`
/// describes for its error, and the offending redex is restored, leaving
/// the net well formed and resumable.
pub fn reduce(net: &mut GNet, book: &Book, limit: u64) -> (r: Result<u64, InteractError>)
    requires
        old(net).wf(),
        book.wf(),
    ensures
        final(net).wf(),
        old(net).redexes@.len() == 0 ==> r == Ok::<u64, InteractError>(0)
            && final(net).same_state(*old(net)),
        r matches Ok(n) ==> n <= limit,
        r matches Ok(n) && n < limit ==> final(net).redexes@.len() == 0,
        r matches Ok(n) ==> steps_to(*old(net), *final(net), *book, n as nat),
        r matches Err(e) ==> exists|k: nat, mid: GNet|
            k < limit && #[trigger] steps_to(*old(net), mid, *book, k) && failed_step(
                mid,
                *final(net),
                *book,
                e,
            ),
{
    let mut steps: u64 = 0;
    proof {
        lemma_steps_to_refl(*old(net), *book);
    }
    while steps < limit
        invariant
            net.wf(),
            book.wf(),
            steps <= limit,
            old(net).redexes@.len() == 0 ==> steps == 0 && net.same_state(*old(net)),
            steps_to(*old(net), *net, *book, steps as nat),
        decreases limit - steps,
    {
        if net.redexes.len() == 0 {
            return Ok(steps);
        }
        let ghost pre_iter = *net;
        let popped = net.pop_redex();
        let pair = match popped {
            Some(pair) => pair,
            None => {
                proof {
                    assert(false);
                }
                return Ok(steps);
            }
        };
        let ghost popped_net = *net;
        let (a, b) = pair;
        proof {
            assert(net.port_ok(a) && net.port_ok(b));
        }
        match interact(net, book, a, b) {
            Ok(()) => {
                proof {
                    assert(is_popped(popped_net, pre_iter));
                    assert(interact_post(
                        popped_net,
                        *net,
                        *book,
                        a,
                        b,
                        Ok::<(), InteractError>(()),
                    ));
                    assert(step_from(pre_iter, *net, *book));
                    lemma_steps_to_extend(*old(net), pre_iter, *net, *book, steps as nat);
                    assert(steps_to(*old(net), *net, *book, (steps + 1) as nat));
                }
                steps = steps + 1;
            }
            Err(e) => {
                let ghost after_fail = *net;
                net.push_redex(a, b);
                proof {
                    assert(is_popped(popped_net, pre_iter));
                    assert(interact_post(
                        popped_net,
                        after_fail,
                        *book,
                        a,
                        b,
                        Err::<(), InteractError>(e),
                    ));
                    assert(failed_step(pre_iter, *net, *book, e));
                    assert(steps_to(*old(net), pre_iter, *book, steps as nat));
                }
                return Err(e);
            }
        }
    }
    Ok(steps)
}

/// One allocation grows the node store by at most one slot and keeps
/// every pooled address inside the store.
proof fn lemma_alloc_len(nodes: Seq<Node>, reuse: Seq<u32>, n: Node)
    requires
        forall|i: int| 0 <= i < reuse.len() ==> (#[trigger] reuse[i] as int) < nodes.len(),
    ensures
        nodes.len() <= spec_alloc(nodes, reuse, n).0.len() <= nodes.len() + 1,
        forall|i: int|
            0 <= i < spec_alloc(nodes, reuse, n).1.len() ==> (#[trigger] spec_alloc(
                nodes,
                reuse,
                n,
            ).1[i] as int) < spec_alloc(nodes, reuse, n).0.len(),
{
    if reuse.len() > 0 {
        assert forall|i: int| 0 <= i < reuse.drop_last().len() implies (
        #[trigger] reuse.drop_last()[i] as int) < nodes.update(reuse.last() as int, n).len() by {
            assert(reuse.drop_last()[i] == reuse[i]);
        }
    }
}

/// Whether `p` is a node port naming store address `addr`.
pub open spec fn names_node(p: Port, addr: u32) -> bool {
    is_node_tag(p.tag()) && p.val() == addr
}

/// A port does not dangle: a node port never names a pooled (freed)
/// address.
pub open spec fn port_live(net: GNet, p: Port) -> bool {
    is_node_tag(p.tag()) ==> !net.reuse@.contains(p.val())
}

/// No port stored in a live node's auxiliaries, a pending redex, or a
/// filled variable slot names this address.
pub open spec fn unreferenced(net: GNet, addr: u32) -> bool {
    &&& forall|i: int|
        0 <= i < net.nodes@.len() && !net.reuse@.contains(i as u32) ==> !names_node(
            (#[trigger] net.nodes@[i]).a,
            addr,
        ) && !names_node(net.nodes@[i].b, addr)
    &&& forall|i: int|
        0 <= i < net.redexes@.len() ==> !names_node((#[trigger] net.redexes@[i]).0, addr)
            && !names_node(net.redexes@[i].1, addr)
    &&& forall|i: int|
        0 <= i < net.vars@.len() ==> match #[trigger] net.vars@[i] {
            Some(p) => !names_node(p, addr),
            None => true,
        }
}

/// The liveness half of the net invariant: no port stored in a live
/// node's auxiliaries, a pending redex, or a filled variable slot
/// addresses a freed slot, and the reuse pool holds each reclaimed
/// address at most once.
pub open spec fn no_dangling(net: GNet) -> bool {
    &&& forall|i: int|
        0 <= i < net.nodes@.len() && !net.reuse@.contains(i as u32) ==> port_live(
            net,
            (#[trigger] net.nodes@[i]).a,
        ) && port_live(net, net.nodes@[i].b)
    &&& forall|i: int|
        0 <= i < net.redexes@.len() ==> port_live(net, (#[trigger] net.redexes@[i]).0)
            && port_live(net, net.redexes@[i].1)
    &&& forall|i: int|
        0 <= i < net.vars@.len() ==> match #[trigger] net.vars@[i] {
            Some(p) => port_live(net, p),
            None => true,
        }
    &&& net.reuse@.no_duplicates()
}

/// Appending a fresh entry keeps a pool duplicate-free.
proof fn lemma_nodup_push(s: Seq<u32>, x: u32)
    requires
        s.no_duplicates(),
        !s.contains(x),
    ensures
        s.push(x).no_duplicates(),
{
    assert forall|i: int, j: int|
        0 <= i < s.push(x).len() && 0 <= j < s.push(x).len() && i != j implies s.push(x)[i]
        != s.push(x)[j] by {
        if i == s.len() as int {
            if s.push(x)[j] == x {
                assert(s[j] == x);
                assert(s.contains(x));
            }
        } else if j == s.len() as int {
            if s.push(x)[i] == x {
                assert(s[i] == x);
                assert(s.contains(x));
            }
        }
    }
}

/// The tag and payload of a port packed from an in-range address.
proof fn lemma_packed_port(t: Tag, v: u32)
    requires
        v < 0x2000_0000,
    ensures
        Port::new(t, v).tag() == t,
        Port::new(t, v).val() == v,
{
    crate::port::lemma_port_roundtrip(t, v);
    lemma_addr_fits(v);
}

/// What one allocation does to the stores: where the address comes
/// from, which slots change, and how pool membership evolves.
proof fn lemma_alloc_facts(nodes: Seq<Node>, reuse: Seq<u32>, n: Node)
    requires
        reuse.no_duplicates(),
        forall|i: int| 0 <= i < reuse.len() ==> (#[trigger] reuse[i] as int) < nodes.len(),
    ensures
        ({
            let (nodes2, reuse2, at) = spec_alloc(nodes, reuse, n);
            &&& 0 <= at < nodes2.len()
            &&& nodes2.len() == if at < nodes.len() {
                nodes.len()
            } else {
                nodes.len() + 1
            }
            &&& nodes2[at] == n
            &&& forall|i: int| 0 <= i < nodes.len() && i != at ==> nodes2[i] == nodes[i]
            &&& reuse2.no_duplicates()
            &&& reuse2.len() == if reuse.len() > 0 {
                reuse.len() - 1
            } else {
                0
            }
            &&& !reuse2.contains(at as u32)
            &&& forall|y: u32| #[trigger] reuse2.contains(y) ==> reuse.contains(y)
            &&& forall|y: u32| #[trigger] reuse.contains(y) && y as int != at ==> reuse2.contains(y)
            &&& (at < nodes.len() ==> reuse.contains(at as u32))
            &&& forall|i: int| 0 <= i < reuse2.len() ==> (#[trigger] reuse2[i] as int) < nodes2.len()
        }),
{
    let (nodes2, reuse2, at) = spec_alloc(nodes, reuse, n);
    if reuse.len() > 0 {
        let last = reuse.last();
        assert(reuse[reuse.len() - 1] == last);
        assert(reuse.contains(last));
        assert(at == last as int && at < nodes.len());
        assert forall|i: int, j: int|
            0 <= i < reuse2.len() && 0 <= j < reuse2.len() && i != j implies reuse2[i]
            != reuse2[j] by {
            assert(reuse2[i] == reuse[i] && reuse2[j] == reuse[j]);
        }
        if reuse2.contains(at as u32) {
            let i = choose|i: int| 0 <= i < reuse2.len() && reuse2[i] == at as u32;
            assert(reuse[i] == reuse[reuse.len() - 1]);
        }
        assert forall|y: u32| #[trigger] reuse2.contains(y) implies reuse.contains(y) by {
            let i = choose|i: int| 0 <= i < reuse2.len() && reuse2[i] == y;
            assert(reuse[i] == y);
            assert(reuse.contains(y));
        }
        assert forall|y: u32| #[trigger] reuse.contains(y) && y as int != at implies reuse2.contains(
            y,
        ) by {
            let i = choose|i: int| 0 <= i < reuse.len() && reuse[i] == y;
            assert(i != reuse.len() - 1);
            assert(reuse2[i] == y);
            assert(reuse2.contains(y));
        }
        assert forall|i: int| 0 <= i < reuse2.len() implies (#[trigger] reuse2[i] as int)
            < nodes2.len() by {
            assert(reuse2[i] == reuse[i]);
        }
    } else {
        assert(at == nodes.len());
        assert forall|y: u32| #[trigger] reuse2.contains(y) implies reuse.contains(y) by {}
        if reuse2.contains(at as u32) {
            let i = choose|i: int| 0 <= i < reuse2.len() && reuse2[i] == at as u32;
        }
    }
}

/// Liveness carries across equal states.
proof fn lemma_no_dangling_same(pre: GNet, post: GNet)
    requires
        no_dangling(pre),
        post.same_state(pre),
    ensures
        no_dangling(post),
{
    assert forall|i: int|
        0 <= i < post.nodes@.len() && !post.reuse@.contains(i as u32) implies port_live(
        post,
        (#[trigger] post.nodes@[i]).a,
    ) && port_live(post, post.nodes@[i].b) by {
        assert(post.nodes@[i] == pre.nodes@[i]);
        assert(port_live(pre, pre.nodes@[i].a) && port_live(pre, pre.nodes@[i].b));
    }
    assert forall|i: int|
        0 <= i < post.redexes@.len() implies port_live(post, (#[trigger] post.redexes@[i]).0)
        && port_live(post, post.redexes@[i].1) by {
        assert(post.redexes@[i] == pre.redexes@[i]);
        assert(port_live(pre, pre.redexes@[i].0) && port_live(pre, pre.redexes@[i].1));
    }
    assert forall|i: int| 0 <= i < post.vars@.len() implies match #[trigger] post.vars@[i] {
        Some(p) => port_live(post, p),
        None => true,
    } by {
        assert(post.vars@[i] == pre.vars@[i]);
        assert(match pre.vars@[i] {
            Some(p) => port_live(pre, p),
            None => true,
        });
    }
}

/// Freeing one or two fully disconnected live nodes while queueing only
/// redexes made of live ports that name neither freed address keeps the
/// net free of dangling ports.
proof fn lemma_free_push_live(pre: GNet, post: GNet, f1: u32, f2: u32, two: bool)
    requires
        no_dangling(pre),
        !pre.reuse@.contains(f1),
        unreferenced(pre, f1),
        two ==> !pre.reuse@.contains(f2) && unreferenced(pre, f2) && f1 != f2,
        !two ==> f2 == f1,
        post.nodes@ == pre.nodes@,
        post.vars@ == pre.vars@,
        post.reuse@ == if two {
            pre.reuse@.push(f1).push(f2)
        } else {
            pre.reuse@.push(f1)
        },
        forall|j: int|
            pre.redexes@.len() <= j < post.redexes@.len() ==> port_live(
                pre,
                (#[trigger] post.redexes@[j]).0,
            ) && !names_node(post.redexes@[j].0, f1) && !names_node(post.redexes@[j].0, f2)
                && port_live(pre, post.redexes@[j].1) && !names_node(post.redexes@[j].1, f1)
                && !names_node(post.redexes@[j].1, f2),
        forall|j: int| 0 <= j < pre.redexes@.len() ==> #[trigger] post.redexes@[j] == pre.redexes@[j],
        post.redexes@.len() >= pre.redexes@.len(),
    ensures
        no_dangling(post),
{
    broadcast use vstd::seq_lib::lemma_seq_contains_after_push;

    assert forall|y: u32| #[trigger] post.reuse@.contains(y) implies (pre.reuse@.contains(y) || y
        == f1 || y == f2) by {}
    lemma_nodup_push(pre.reuse@, f1);
    if two {
        lemma_nodup_push(pre.reuse@.push(f1), f2);
    }
    assert forall|i: int|
        0 <= i < post.nodes@.len() && !post.reuse@.contains(i as u32) implies port_live(
        post,
        (#[trigger] post.nodes@[i]).a,
    ) && port_live(post, post.nodes@[i].b) by {
        assert(!pre.reuse@.contains(i as u32));
        assert(post.nodes@[i] == pre.nodes@[i]);
        assert(port_live(pre, pre.nodes@[i].a) && port_live(pre, pre.nodes@[i].b));
        assert(!names_node(pre.nodes@[i].a, f1) && !names_node(pre.nodes@[i].b, f1));
        if two {
            assert(!names_node(pre.nodes@[i].a, f2) && !names_node(pre.nodes@[i].b, f2));
        }
    }
    assert forall|i: int|
        0 <= i < post.redexes@.len() implies port_live(post, (#[trigger] post.redexes@[i]).0)
        && port_live(post, post.redexes@[i].1) by {
        if i < pre.redexes@.len() {
            assert(post.redexes@[i] == pre.redexes@[i]);
            assert(port_live(pre, pre.redexes@[i].0) && port_live(pre, pre.redexes@[i].1));
            assert(!names_node(pre.redexes@[i].0, f1) && !names_node(pre.redexes@[i].1, f1));
            if two {
                assert(!names_node(pre.redexes@[i].0, f2) && !names_node(pre.redexes@[i].1, f2));
            }
        }
    }
    assert forall|i: int| 0 <= i < post.vars@.len() implies match #[trigger] post.vars@[i] {
        Some(p) => port_live(post, p),
        None => true,
    } by {
        assert(post.vars@[i] == pre.vars@[i]);
        match pre.vars@[i] {
            Some(p) => {
                assert(port_live(pre, p));
                assert(!names_node(p, f1));
                if two {
                    assert(!names_node(p, f2));
                }
            }
            None => {}
        }
    }
}

/// The Link rule preserves liveness: it touches no node and records or
/// joins only live ports.
proof fn lemma_link_live(pre: GNet, post: GNet, a: Port, b: Port)
    requires
        no_dangling(pre),
        port_live(pre, a),
        port_live(pre, b),
        a.tag() == Tag::Var || b.tag() == Tag::Var,
        link_post(pre, post, a, b, Ok(())),
    ensures
        no_dangling(post),
{
    broadcast use vstd::seq_lib::lemma_seq_contains_after_push;

    let x = if a.tag() == Tag::Var {
        a
    } else {
        b
    };
    let y = if a.tag() == Tag::Var {
        b
    } else {
        a
    };
    let v = x.val() as int;
    let grown = spec_grow_vars(pre.vars@, v);
    assert(port_live(pre, y));
    assert forall|i: int|
        0 <= i < post.nodes@.len() && !post.reuse@.contains(i as u32) implies port_live(
        post,
        (#[trigger] post.nodes@[i]).a,
    ) && port_live(post, post.nodes@[i].b) by {
        assert(post.nodes@[i] == pre.nodes@[i]);
        assert(port_live(pre, pre.nodes@[i].a) && port_live(pre, pre.nodes@[i].b));
    }
    assert forall|i: int|
        0 <= i < post.redexes@.len() implies port_live(post, (#[trigger] post.redexes@[i]).0)
        && port_live(post, post.redexes@[i].1) by {
        if i < pre.redexes@.len() {
            assert(post.redexes@[i] == pre.redexes@[i]);
            assert(port_live(pre, pre.redexes@[i].0) && port_live(pre, pre.redexes@[i].1));
        } else {
            // the one joined redex: the slot's recorded port meets `y`
            let c = grown[v]->Some_0;
            assert(v < pre.vars@.len() && pre.vars@[v] is Some);
            assert(match pre.vars@[v] {
                Some(p) => port_live(pre, p),
                None => true,
            });
            assert(post.redexes@[i] == (c, y));
        }
    }
    assert forall|i: int| 0 <= i < post.vars@.len() implies match #[trigger] post.vars@[i] {
        Some(p) => port_live(post, p),
        None => true,
    } by {
        if i != v && i < pre.vars@.len() {
            assert(post.vars@[i] == pre.vars@[i]);
            assert(match pre.vars@[i] {
                Some(p) => port_live(pre, p),
                None => true,
            });
        } else if i != v {
            assert(post.vars@[i] is None);
        }
    }
}

/// Annihilation and beta-reduction preserve liveness: the consumed
/// nodes' auxiliaries are live, name neither consumed principal, and
/// become the new redexes.
proof fn lemma_cross_live(pre: GNet, post: GNet, a: Port, b: Port)
    requires
        pre.wf(),
        no_dangling(pre),
        pre.port_ok(a),
        pre.port_ok(b),
        is_node_tag(a.tag()),
        is_node_tag(b.tag()),
        port_live(pre, a),
        port_live(pre, b),
        unreferenced(pre, a.val()),
        unreferenced(pre, b.val()),
        cross_post(pre, post, a, b, Ok(())),
    ensures
        no_dangling(post),
{
    let av = a.val();
    let bv = b.val();
    let n1 = pre.nodes@[av as int];
    let n2 = pre.nodes@[bv as int];
    assert(port_live(pre, n1.a) && port_live(pre, n1.b));
    assert(port_live(pre, n2.a) && port_live(pre, n2.b));
    if av == bv {
        lemma_free_push_live(pre, post, av, av, false);
    } else {
        lemma_free_push_live(pre, post, av, bv, true);
    }
}

/// Erasure preserves liveness: a leaf is discarded outright; a node's
/// auxiliaries are live, do not name it, and meet the eraser (a leaf).
proof fn lemma_eras_live(pre: GNet, post: GNet, a: Port, b: Port)
    requires
        pre.wf(),
        no_dangling(pre),
        pre.port_ok(a),
        pre.port_ok(b),
        a.tag() == Tag::Era || b.tag() == Tag::Era,
        port_live(pre, a),
        port_live(pre, b),
        is_node_tag(a.tag()) ==> unreferenced(pre, a.val()),
        is_node_tag(b.tag()) ==> unreferenced(pre, b.val()),
        eras_post(pre, post, a, b, Ok(())),
    ensures
        no_dangling(post),
{
    let x = if a.tag() == Tag::Era {
        b
    } else {
        a
    };
    if is_node_tag(x.tag()) {
        let node = pre.nodes@[x.val() as int];
        assert(port_live(pre, node.a) && port_live(pre, node.b));
        lemma_free_push_live(pre, post, x.val(), x.val(), false);
    } else {
        lemma_no_dangling_same(pre, post);
    }
}

/// Copying a numeral through a duplicator preserves liveness; copying
/// an operator node commutes, which is handled with commutation.
proof fn lemma_copy_num_live(pre: GNet, post: GNet, a: Port, b: Port)
    requires
        pre.wf(),
        no_dangling(pre),
        pre.port_ok(a),
        pre.port_ok(b),
        spec_rule(a, b) == Rule::Copy,
        (if a.tag() == Tag::Dup {
            b
        } else {
            a
        }).tag() == Tag::Num,
        port_live(pre, a),
        port_live(pre, b),
        is_node_tag(a.tag()) ==> unreferenced(pre, a.val()),
        is_node_tag(b.tag()) ==> unreferenced(pre, b.val()),
        copy_post(pre, post, a, b, Ok(())),
    ensures
        no_dangling(post),
{
    let d = if a.tag() == Tag::Dup {
        a
    } else {
        b
    };
    let node = pre.nodes@[d.val() as int];
    assert(is_node_tag(d.tag()));
    assert(port_live(pre, node.a) && port_live(pre, node.b));
    lemma_free_push_live(pre, post, d.val(), d.val(), false);
}

/// The numeric rule preserves liveness, in all three shapes: bare
/// numerals leave the net alone; firing frees only the operator node
/// and queues its live return slot against a fresh numeral; binding the
/// left operand re-homes the node into a slot no surviving port names.
proof fn lemma_oper_live(pre: GNet, post: GNet, a: Port, b: Port)
    requires
        pre.wf(),
        no_dangling(pre),
        pre.port_ok(a),
        pre.port_ok(b),
        spec_rule(a, b) == Rule::Oper,
        port_live(pre, a),
        port_live(pre, b),
        is_node_tag(a.tag()) ==> unreferenced(pre, a.val()),
        is_node_tag(b.tag()) ==> unreferenced(pre, b.val()),
        oper_post(pre, post, a, b, Ok(())),
    ensures
        no_dangling(post),
{
    broadcast use vstd::seq_lib::lemma_seq_contains_after_push;

    if a.tag() == Tag::Num && b.tag() == Tag::Num {
        lemma_no_dangling_same(pre, post);
        return;
    }
    let n = if a.tag() == Tag::Num {
        a
    } else {
        b
    };
    let o = if a.tag() == Tag::Num {
        b
    } else {
        a
    };
    let ov = o.val();
    let node = pre.nodes@[ov as int];
    assert(is_node_tag(o.tag()));
    assert(port_live(pre, node.a) && port_live(pre, node.b));
    if node.a.tag() == Tag::Num {
        crate::port::lemma_port_roundtrip(
            Tag::Num,
            spec_apply_op(node.lab, node.a.val(), n.val()),
        );
        lemma_free_push_live(pre, post, ov, ov, false);
    } else {
        // the left operand binds: one allocation, then the old node is freed
        let fresh = Node { lab: node.lab, a: Port::new(Tag::Num, n.val()), b: node.b };
        crate::port::lemma_port_roundtrip(Tag::Num, n.val());
        let (nodes2, reuse2, at) = spec_alloc(pre.nodes@, pre.reuse@, fresh);
        lemma_alloc_facts(pre.nodes@, pre.reuse@, fresh);
        assert(at < STORE_CAP);
        lemma_packed_port(Tag::Opr, at as u32);
        assert(!reuse2.contains(ov));
        lemma_nodup_push(reuse2, ov);
        assert forall|y: u32| #[trigger] post.reuse@.contains(y) implies (pre.reuse@.contains(y)
            || y == ov) by {
            if y != ov {
                assert(reuse2.contains(y));
            }
        }
        assert forall|i: int|
            0 <= i < post.nodes@.len() && !post.reuse@.contains(i as u32) implies port_live(
            post,
            (#[trigger] post.nodes@[i]).a,
        ) && port_live(post, post.nodes@[i].b) by {
            if i == at {
                assert(post.nodes@[i] == fresh);
                assert(!is_node_tag(fresh.a.tag()));
                assert(!names_node(node.b, ov));
            } else {
                assert(i < pre.nodes@.len());
                assert(post.nodes@[i] == pre.nodes@[i]);
                if pre.reuse@.contains(i as u32) {
                    assert(reuse2.contains(i as u32));
                    assert(post.reuse@.contains(i as u32));
                }
                assert(port_live(pre, pre.nodes@[i].a) && port_live(pre, pre.nodes@[i].b));
                assert(!names_node(pre.nodes@[i].a, ov) && !names_node(pre.nodes@[i].b, ov));
            }
        }
        assert forall|i: int|
            0 <= i < post.redexes@.len() implies port_live(post, (#[trigger] post.redexes@[i]).0)
            && port_live(post, post.redexes@[i].1) by {
            if i < pre.redexes@.len() {
                assert(post.redexes@[i] == pre.redexes@[i]);
                assert(port_live(pre, pre.redexes@[i].0) && port_live(pre, pre.redexes@[i].1));
                assert(!names_node(pre.redexes@[i].0, ov) && !names_node(pre.redexes@[i].1, ov));
            } else {
                assert(post.redexes@[i] == (node.a, Port::new(Tag::Opr, at as u32)));
                assert(!names_node(node.a, ov));
                if at < pre.nodes@.len() {
                    assert(pre.reuse@.contains(at as u32));
                    assert(at as u32 != ov);
                } else {
                    assert(at as u32 != ov);
                }
            }
        }
        assert forall|i: int| 0 <= i < post.vars@.len() implies match #[trigger] post.vars@[i] {
            Some(p) => port_live(post, p),
            None => true,
        } by {
            assert(post.vars@[i] == pre.vars@[i]);
            match pre.vars@[i] {
                Some(p) => {
                    assert(port_live(pre, p));
                    assert(!names_node(p, ov));
                }
                None => {}
            }
        }
    }
}

/// A remapped template port never dangles into a pool whose entries all
/// lie below the instance's node block.
proof fn lemma_remap_live(p: Port, nb: int, vbase: int, post: GNet)
    requires
        nb >= 0,
        vbase >= 0,
        forall|y: u32| #[trigger] post.reuse@.contains(y) ==> (y as int) < nb,
        is_node_tag(p.tag()) ==> p.val() + nb < 0x2000_0000,
    ensures
        port_live(post, spec_remap(p, nb, vbase)),
{
    crate::port::lemma_val_bounded(p);
    if is_node_tag(p.tag()) {
        lemma_packed_port(p.tag(), (p.val() + nb) as u32);
        if post.reuse@.contains((p.val() + nb) as u32) {
            assert((p.val() + nb) < nb);
        }
    } else if p.tag() == Tag::Var {
        crate::port::lemma_port_roundtrip(Tag::Var, (p.val() + vbase) as u32);
    }
}

/// Dereferencing preserves liveness: the pool is untouched, its entries
/// all lie below the fresh instance block, and every appended port is
/// either remapped into that block or a leaf.
proof fn lemma_deref_live(pre: GNet, post: GNet, book: Book, a: Port, b: Port)
    requires
        pre.wf(),
        book.wf(),
        no_dangling(pre),
        pre.port_ok(a),
        pre.port_ok(b),
        port_live(pre, a),
        port_live(pre, b),
        spec_rule(a, b) == Rule::Deref,
        deref_post(pre, post, book, a, b, Ok(())),
    ensures
        no_dangling(post),
{
    let f = if a.tag() == Tag::Ref {
        a
    } else {
        b
    };
    let x = if a.tag() == Tag::Ref {
        b
    } else {
        a
    };
    let idx = f.val() as int;
    assert(idx < book.entries().len());
    let tpl = book.entries()[idx].1.net;
    assert(book.entries()[idx].1.wf_def());
    let nb = pre.nodes@.len() as int;
    let vbase = pre.vars@.len() as int;
    assert forall|y: u32| #[trigger] post.reuse@.contains(y) implies (y as int) < nb by {
        let i = choose|i: int| 0 <= i < pre.reuse@.len() && pre.reuse@[i] == y;
        assert((pre.reuse@[i] as int) < pre.nodes@.len());
    }
    assert forall|i: int|
        0 <= i < post.nodes@.len() && !post.reuse@.contains(i as u32) implies port_live(
        post,
        (#[trigger] post.nodes@[i]).a,
    ) && port_live(post, post.nodes@[i].b) by {
        if i < nb {
            assert(post.nodes@[i] == pre.nodes@[i]);
            assert(!pre.reuse@.contains(i as u32));
            assert(port_live(pre, pre.nodes@[i].a) && port_live(pre, pre.nodes@[i].b));
        } else {
            let t = tpl.nodes@[i - nb];
            assert(post.nodes@[i] == spec_remap_node(t, nb, vbase));
            assert(tpl.node_ok(t));
            lemma_remap_live(t.a, nb, vbase, post);
            lemma_remap_live(t.b, nb, vbase, post);
        }
    }
    assert forall|i: int|
        0 <= i < post.redexes@.len() implies port_live(post, (#[trigger] post.redexes@[i]).0)
        && port_live(post, post.redexes@[i].1) by {
        let pr = pre.redexes@.len() as int;
        let tr = tpl.redexes@.len() as int;
        if i < pr {
            assert(post.redexes@[i] == pre.redexes@[i]);
            assert(port_live(pre, pre.redexes@[i].0) && port_live(pre, pre.redexes@[i].1));
        } else if i < pr + tr {
            let tp = tpl.redexes@[i - pr];
            assert(tpl.port_ok(tp.0) && tpl.port_ok(tp.1));
            lemma_remap_live(tp.0, nb, vbase, post);
            lemma_remap_live(tp.1, nb, vbase, post);
        } else {
            assert(post.redexes@[i] == (
                spec_remap(spec_slot_port(tpl.vars@[0]), nb, vbase),
                x,
            ));
            assert(tpl.port_ok(spec_slot_port(tpl.vars@[0])));
            lemma_remap_live(spec_slot_port(tpl.vars@[0]), nb, vbase, post);
            assert(port_live(pre, x));
        }
    }
    assert forall|i: int| 0 <= i < post.vars@.len() implies match #[trigger] post.vars@[i] {
        Some(p) => port_live(post, p),
        None => true,
    } by {
        if i < vbase {
            assert(post.vars@[i] == pre.vars@[i]);
            assert(match pre.vars@[i] {
                Some(p) => port_live(pre, p),
                None => true,
            });
        } else if i > vbase {
            assert(post.vars@[i] == spec_remap_slot(tpl.vars@[i - vbase], nb, vbase));
            match tpl.vars@[i - vbase] {
                Some(p) => {
                    assert(tpl.port_ok(p));
                    lemma_remap_live(p, nb, vbase, post);
                }
                None => {}
            }
        }
    }
}

/// Commutation preserves liveness: the four copies hold only fresh
/// wires, every queued port is live, and the two consumed nodes are
/// freed with no surviving reference.
proof fn lemma_comm_live(pre: GNet, post: GNet, a: Port, b: Port)
    requires
        pre.wf(),
        no_dangling(pre),
        pre.port_ok(a),
        pre.port_ok(b),
        is_node_tag(a.tag()),
        is_node_tag(b.tag()),
        port_live(pre, a),
        port_live(pre, b),
        unreferenced(pre, a.val()),
        unreferenced(pre, b.val()),
        comm_post(pre, post, a, b, Ok(())),
    ensures
        no_dangling(post),
{
    broadcast use vstd::seq_lib::lemma_seq_contains_after_push;

    let av = a.val();
    let bv = b.val();
    let n1 = pre.nodes@[av as int];
    let n2 = pre.nodes@[bv as int];
    let vb = pre.vars@.len() as int;
    let w0 = Port::new(Tag::Var, vb as u32);
    let w1 = Port::new(Tag::Var, (vb + 1) as u32);
    let w2 = Port::new(Tag::Var, (vb + 2) as u32);
    let w3 = Port::new(Tag::Var, (vb + 3) as u32);
    crate::port::lemma_port_roundtrip(Tag::Var, vb as u32);
    crate::port::lemma_port_roundtrip(Tag::Var, (vb + 1) as u32);
    crate::port::lemma_port_roundtrip(Tag::Var, (vb + 2) as u32);
    crate::port::lemma_port_roundtrip(Tag::Var, (vb + 3) as u32);
    let m1 = Node { lab: n2.lab, a: w0, b: w2 };
    let m2 = Node { lab: n2.lab, a: w1, b: w3 };
    let m3 = Node { lab: n1.lab, a: w0, b: w1 };
    let m4 = Node { lab: n1.lab, a: w2, b: w3 };
    let (nodes1, reuse1, k1) = spec_alloc(pre.nodes@, pre.reuse@, m1);
    let (nodes2, reuse2, k2) = spec_alloc(nodes1, reuse1, m2);
    let (nodes3, reuse3, k3) = spec_alloc(nodes2, reuse2, m3);
    let (nodes4, reuse4, k4) = spec_alloc(nodes3, reuse3, m4);
    lemma_alloc_facts(pre.nodes@, pre.reuse@, m1);
    lemma_alloc_facts(nodes1, reuse1, m2);
    lemma_alloc_facts(nodes2, reuse2, m3);
    lemma_alloc_facts(nodes3, reuse3, m4);

    // the pool only shrinks through the four allocations
    assert forall|y: u32| #[trigger] reuse4.contains(y) implies pre.reuse@.contains(y) by {
        assert(reuse3.contains(y));
        assert(reuse2.contains(y));
        assert(reuse1.contains(y));
    }
    // a pooled address survives unless one of the allocations took it
    assert forall|y: u32|
        #[trigger] pre.reuse@.contains(y) && y as int != k1 && y as int != k2 && y as int != k3
            && y as int != k4 implies reuse4.contains(y) by {
        assert(reuse1.contains(y));
        assert(reuse2.contains(y));
        assert(reuse3.contains(y));
    }
    // the allocated slots are not pooled afterwards
    assert(!reuse4.contains(k1 as u32) && !reuse4.contains(k2 as u32) && !reuse4.contains(
        k3 as u32,
    ) && !reuse4.contains(k4 as u32));
    // the consumed principals were never pooled, so the allocations are
    // elsewhere and the frees are fresh
    assert(!pre.reuse@.contains(av) && !pre.reuse@.contains(bv));
    assert(!reuse4.contains(av) && !reuse4.contains(bv));
    assert(k1 != av as int && k1 != bv as int) by {
        if k1 < pre.nodes@.len() {
            assert(pre.reuse@.contains(k1 as u32));
        }
    }
    assert(k2 != av as int && k2 != bv as int) by {
        if k2 < nodes1.len() {
            assert(reuse1.contains(k2 as u32));
            assert(pre.reuse@.contains(k2 as u32));
        }
    }
    assert(k3 != av as int && k3 != bv as int) by {
        if k3 < nodes2.len() {
            assert(reuse2.contains(k3 as u32));
            assert(pre.reuse@.contains(k3 as u32));
        }
    }
    assert(k4 != av as int && k4 != bv as int) by {
        if k4 < nodes3.len() {
            assert(reuse3.contains(k4 as u32));
            assert(pre.reuse@.contains(k4 as u32));
        }
    }
    // the four slots are pairwise distinct, so each copy survives the
    // later allocations
    assert(k2 != k1) by {
        if k2 < nodes1.len() {
            assert(reuse1.contains(k2 as u32));
        }
    }
    assert(k3 != k1 && k3 != k2) by {
        if k3 < nodes2.len() {
            assert(reuse2.contains(k3 as u32));
            assert(reuse1.contains(k3 as u32));
        }
    }
    assert(k4 != k1 && k4 != k2 && k4 != k3) by {
        if k4 < nodes3.len() {
            assert(reuse3.contains(k4 as u32));
            assert(reuse2.contains(k4 as u32));
            assert(reuse1.contains(k4 as u32));
        }
    }
    assert(nodes4[k1] == m1 && nodes4[k2] == m2 && nodes4[k3] == m3 && nodes4[k4] == m4);
    // all four slots stay inside the 29-bit address space
    assert(nodes4.len() <= STORE_CAP);
    lemma_packed_port(b.tag(), k1 as u32);
    lemma_packed_port(b.tag(), k2 as u32);
    lemma_packed_port(a.tag(), k3 as u32);
    lemma_packed_port(a.tag(), k4 as u32);
    // pool after the frees
    lemma_nodup_push(reuse4, av);
    if av != bv {
        lemma_nodup_push(reuse4.push(av), bv);
    }
    assert forall|y: u32| #[trigger] post.reuse@.contains(y) implies (pre.reuse@.contains(y) || y
        == av || y == bv) by {
        if y != av && y != bv {
            assert(reuse4.contains(y));
        }
    }

    assert forall|i: int|
        0 <= i < post.nodes@.len() && !post.reuse@.contains(i as u32) implies port_live(
        post,
        (#[trigger] post.nodes@[i]).a,
    ) && port_live(post, post.nodes@[i].b) by {
        if i == k1 || i == k2 || i == k3 || i == k4 {
            assert(!is_node_tag(w0.tag()) && !is_node_tag(w1.tag()) && !is_node_tag(w2.tag())
                && !is_node_tag(w3.tag()));
        } else {
            if i >= pre.nodes@.len() {
                if i >= nodes3.len() {
                    assert(i == k4);
                } else if i >= nodes2.len() {
                    assert(i == k3);
                } else if i >= nodes1.len() {
                    assert(i == k2);
                } else {
                    assert(i == k1);
                }
            }
            assert(i < pre.nodes@.len());
            assert(post.nodes@[i] == pre.nodes@[i]);
            if pre.reuse@.contains(i as u32) {
                assert(reuse4.contains(i as u32));
                assert(post.reuse@.contains(i as u32));
            }
            assert(port_live(pre, pre.nodes@[i].a) && port_live(pre, pre.nodes@[i].b));
            assert(!names_node(pre.nodes@[i].a, av) && !names_node(pre.nodes@[i].b, av));
            assert(!names_node(pre.nodes@[i].a, bv) && !names_node(pre.nodes@[i].b, bv));
        }
    }
    assert forall|i: int|
        0 <= i < post.redexes@.len() implies port_live(post, (#[trigger] post.redexes@[i]).0)
        && port_live(post, post.redexes@[i].1) by {
        let pr = pre.redexes@.len() as int;
        if i < pr {
            assert(post.redexes@[i] == pre.redexes@[i]);
            assert(port_live(pre, pre.redexes@[i].0) && port_live(pre, pre.redexes@[i].1));
            assert(!names_node(pre.redexes@[i].0, av) && !names_node(pre.redexes@[i].1, av));
            assert(!names_node(pre.redexes@[i].0, bv) && !names_node(pre.redexes@[i].1, bv));
        } else {
            assert(port_live(pre, n1.a) && port_live(pre, n1.b));
            assert(port_live(pre, n2.a) && port_live(pre, n2.b));
            assert(!names_node(n1.a, av) && !names_node(n1.b, av) && !names_node(n2.a, av)
                && !names_node(n2.b, av));
            assert(!names_node(n1.a, bv) && !names_node(n1.b, bv) && !names_node(n2.a, bv)
                && !names_node(n2.b, bv));
            if i == pr {
                assert(post.redexes@[i] == (n1.a, Port::new(b.tag(), k1 as u32)));
            } else if i == pr + 1 {
                assert(post.redexes@[i] == (n1.b, Port::new(b.tag(), k2 as u32)));
            } else if i == pr + 2 {
                assert(post.redexes@[i] == (n2.a, Port::new(a.tag(), k3 as u32)));
            } else {
                assert(post.redexes@[i] == (n2.b, Port::new(a.tag(), k4 as u32)));
            }
        }
    }
    assert forall|i: int| 0 <= i < post.vars@.len() implies match #[trigger] post.vars@[i] {
        Some(p) => port_live(post, p),
        None => true,
    } by {
        if i < vb {
            assert(post.vars@[i] == pre.vars@[i]);
            match pre.vars@[i] {
                Some(p) => {
                    assert(port_live(pre, p));
                    assert(!names_node(p, av) && !names_node(p, bv));
                }
                None => {}
            }
        } else {
            assert(post.vars@[i] is None);
        }
    }
}

/// The liveness half of spec's Net invariant is preserved by every
/// successful interaction, under the wiring discipline that makes a
/// redex sound to rewrite: both operands are live, and no port still
/// stored in the net references their principal addresses — each
/// principal connection is met exactly once, by the redex itself.  The
/// freed slots therefore leave no dangling reference behind.
pub proof fn lemma_interact_preserves_liveness(
    pre: GNet,
    post: GNet,
    book: Book,
    a: Port,
    b: Port,
)
    requires
        pre.wf(),
        book.wf(),
        no_dangling(pre),
        pre.port_ok(a),
        pre.port_ok(b),
        port_live(pre, a),
        port_live(pre, b),
        is_node_tag(a.tag()) ==> unreferenced(pre, a.val()),
        is_node_tag(b.tag()) ==> unreferenced(pre, b.val()),
        interact_post(pre, post, book, a, b, Ok(())),
    ensures
        no_dangling(post),
{
    match spec_rule(a, b) {
        Rule::Link => lemma_link_live(pre, post, a, b),
        Rule::Anni => lemma_cross_live(pre, post, a, b),
        Rule::Call => lemma_cross_live(pre, post, a, b),
        Rule::Comm => lemma_comm_live(pre, post, a, b),
        Rule::Eras => lemma_eras_live(pre, post, a, b),
        Rule::Deref => lemma_deref_live(pre, post, book, a, b),
        Rule::Copy => {
            let x = if a.tag() == Tag::Dup {
                b
            } else {
                a
            };
            if x.tag() == Tag::Num {
                lemma_copy_num_live(pre, post, a, b);
            } else {
                lemma_comm_live(pre, post, a, b);
            }
        },
        Rule::Oper => lemma_oper_live(pre, post, a, b),
    }
}

/// An operator that has bound its left operand fires in one rewrite:
/// the redex collapses to a single numeral, computed with Numb's
/// wrapping semantics, wired against the return slot; no node is
/// created and only the operator node is freed.
pub proof fn lemma_oper_fires(pre: GNet, post: GNet, book: Book, a: Port, b: Port)
    requires
        a.tag() == Tag::Num,
        b.tag() == Tag::Opr,
        pre.nodes@[b.val() as int].a.tag() == Tag::Num,
        interact_post(pre, post, book, a, b, Ok(())),
    ensures
        post.nodes@ == pre.nodes@,
        post.vars@ == pre.vars@,
        post.redexes@ == pre.redexes@.push(
            (
                pre.nodes@[b.val() as int].b,
                Port::new(
                    Tag::Num,
                    spec_apply_op(
                        pre.nodes@[b.val() as int].lab,
                        pre.nodes@[b.val() as int].a.val(),
                        a.val(),
                    ),
                ),
            ),
        ),
        post.reuse@ == pre.reuse@.push(b.val()),
{
}

/// Dividing by the zero numeral yields the zero numeral, never a
/// failure: the operation an operator node applies is total.
pub proof fn lemma_apply_op_div_zero(x: u32)
    ensures
        spec_apply_op(OP_DIV, x, 0) == 0,
{
    assert(0u64 & (VAL_MASK as u64) == 0) by (bit_vector);
}

/// A failed dereference is clean: whether the name was absent (a lookup
/// failure) or the store was exhausted, the net is left in its pre-call
/// state, and a lookup failure happens exactly when the reference names
/// no definition of the book.
pub proof fn lemma_deref_failure_is_clean(
    pre: GNet,
    post: GNet,
    book: Book,
    a: Port,
    b: Port,
    e: InteractError,
)
    requires
        spec_rule(a, b) == Rule::Deref,
        interact_post(pre, post, book, a, b, Err(e)),
    ensures
        post.same_state(pre),
        e == (InteractError::Lookup { a, b }) <==> (if a.tag() == Tag::Ref {
            a
        } else {
            b
        }).val() as int >= book.entries().len(),
{
}

/// Annihilating two distinct same-label nodes produces no redex beyond
/// the two directly crossed auxiliary pairs, allocates nothing, touches
/// no other store, and frees exactly the two consumed nodes.
pub proof fn lemma_anni_bounded(pre: GNet, post: GNet, book: Book, a: Port, b: Port)
    requires
        spec_rule(a, b) == Rule::Anni,
        a.val() != b.val(),
        interact_post(pre, post, book, a, b, Ok(())),
    ensures
        post.redexes@.len() == pre.redexes@.len() + 2,
        post.redexes@[pre.redexes@.len() as int] == (
            pre.nodes@[a.val() as int].a,
            pre.nodes@[b.val() as int].a,
        ),
        post.redexes@[pre.redexes@.len() as int + 1] == (
            pre.nodes@[a.val() as int].b,
            pre.nodes@[b.val() as int].b,
        ),
        post.nodes@ == pre.nodes@,
        post.vars@ == pre.vars@,
        post.reuse@ == pre.reuse@.push(a.val()).push(b.val()),
{
}

/// Commuting two different-label nodes of auxiliary arity two produces
/// exactly four new redexes — one per auxiliary of either node — and
/// exactly four fresh wires.
pub proof fn lemma_comm_bounded(pre: GNet, post: GNet, book: Book, a: Port, b: Port)
    requires
        pre.wf(),
        spec_rule(a, b) == Rule::Comm,
        interact_post(pre, post, book, a, b, Ok(())),
    ensures
        post.redexes@.len() == pre.redexes@.len() + 4,
        post.vars@.len() == pre.vars@.len() + 4,
        post.nodes@.len() <= pre.nodes@.len() + 4,
{
    let n1 = pre.nodes@[a.val() as int];
    let n2 = pre.nodes@[b.val() as int];
    let vb = pre.vars@.len() as int;
    let w0 = Port::new(Tag::Var, vb as u32);
    let w1 = Port::new(Tag::Var, (vb + 1) as u32);
    let w2 = Port::new(Tag::Var, (vb + 2) as u32);
    let w3 = Port::new(Tag::Var, (vb + 3) as u32);
    let (nodes1, reuse1, kb1) = spec_alloc(
        pre.nodes@,
        pre.reuse@,
        Node { lab: n2.lab, a: w0, b: w2 },
    );
    let (nodes2, reuse2, kb2) = spec_alloc(nodes1, reuse1, Node { lab: n2.lab, a: w1, b: w3 });
    let (nodes3, reuse3, ka1) = spec_alloc(nodes2, reuse2, Node { lab: n1.lab, a: w0, b: w1 });
    let (nodes4, reuse4, ka2) = spec_alloc(nodes3, reuse3, Node { lab: n1.lab, a: w2, b: w3 });
    lemma_alloc_len(pre.nodes@, pre.reuse@, Node { lab: n2.lab, a: w0, b: w2 });
    lemma_alloc_len(nodes1, reuse1, Node { lab: n2.lab, a: w1, b: w3 });
    lemma_alloc_len(nodes2, reuse2, Node { lab: n1.lab, a: w0, b: w1 });
    lemma_alloc_len(nodes3, reuse3, Node { lab: n1.lab, a: w2, b: w3 });
}

} // verus!



