use hvmx::interact::{OP_ADD, OP_DIV, OP_SUB};
use hvmx::{get_rule, interact, reduce, Book, Def, GNet, InteractError, Node, Port, Rule, Tag};

fn var(v: u32) -> Port {
    Port::new(Tag::Var, v)
}

fn num(v: u32) -> Port {
    Port::new(Tag::Num, v)
}

#[test]
fn test_get_rule_link() {
    let a = Port::new(Tag::Var, 1);
    let b = Port::new(Tag::Var, 2);
    assert_eq!(get_rule(a, b), Rule::Link);
}

#[test]
fn test_get_rule_deref() {
    let a = Port::new(Tag::Ref, 1);
    let b = Port::new(Tag::Var, 2);
    assert_eq!(get_rule(a, b), Rule::Deref);
}

#[test]
fn test_get_rule_oper() {
    let a = Port::new(Tag::Num, 10);
    let b = Port::new(Tag::Num, 20);
    assert_eq!(get_rule(a, b), Rule::Oper);
}

#[test]
fn test_get_rule_node_pairs() {
    assert_eq!(get_rule(Port::new(Tag::Con, 0), Port::new(Tag::Con, 1)), Rule::Anni);
    assert_eq!(get_rule(Port::new(Tag::Dup, 0), Port::new(Tag::Dup, 1)), Rule::Anni);
    assert_eq!(get_rule(Port::new(Tag::App, 0), Port::new(Tag::Con, 1)), Rule::Call);
    assert_eq!(get_rule(Port::new(Tag::Con, 0), Port::new(Tag::Dup, 1)), Rule::Comm);
    assert_eq!(get_rule(Port::new(Tag::Dup, 0), Port::new(Tag::Num, 7)), Rule::Copy);
    assert_eq!(get_rule(Port::new(Tag::Era, 0), Port::new(Tag::Con, 0)), Rule::Eras);
    assert_eq!(get_rule(Port::new(Tag::Era, 0), Port::new(Tag::Ref, 0)), Rule::Eras);
}

#[test]
fn test_interact_link() {
    let mut net = GNet::new();
    let a = Port::new(Tag::Var, 1);
    let b = Port::new(Tag::Var, 2);

    let result = interact(&mut net, &Book::new(), a, b);
    assert!(result.is_ok());
}

#[test]
fn test_interact_oper() {
    let mut net = GNet::new();
    let a = Port::new(Tag::Num, 5);
    let b = Port::new(Tag::Num, 3);

    let result = interact(&mut net, &Book::new(), a, b);
    assert!(result.is_ok());
}

#[test]
fn test_link_stores_then_joins() {
    // The first endpoint fills the slot; the second consumes it and the
    // recorded port meets the new operand as a redex.
    let mut net = GNet::new();
    let book = Book::new();
    interact(&mut net, &book, var(0), num(7)).unwrap();
    assert_eq!(net.vars[0], Some(num(7)));
    interact(&mut net, &book, var(0), num(9)).unwrap();
    assert_eq!(net.vars[0], None);
    assert_eq!(net.redexes, vec![(num(7), num(9))]);
}

#[test]
fn test_anni_crosses_exactly_two_wires() {
    let mut net = GNet::new();
    let book = Book::new();
    net.nodes.push(Node { lab: 0, a: var(0), b: var(1) });
    net.nodes.push(Node { lab: 0, a: var(2), b: var(3) });
    for _ in 0..4 {
        net.vars.push(None);
    }
    interact(&mut net, &book, Port::new(Tag::Con, 0), Port::new(Tag::Con, 1)).unwrap();
    // No redex beyond the two directly crossed auxiliary pairs.
    assert_eq!(net.redexes, vec![(var(0), var(2)), (var(1), var(3))]);
    assert_eq!(net.reuse, vec![0, 1]);
    assert_eq!(net.nodes.len(), 2);
}

#[test]
fn test_comm_yields_four_redexes() {
    let mut net = GNet::new();
    let book = Book::new();
    net.nodes.push(Node { lab: 0, a: var(0), b: var(1) });
    net.nodes.push(Node { lab: 0, a: var(2), b: var(3) });
    for _ in 0..4 {
        net.vars.push(None);
    }
    interact(&mut net, &book, Port::new(Tag::Con, 0), Port::new(Tag::Dup, 1)).unwrap();
    // Exactly four new redexes and four fresh wires.
    assert_eq!(net.redexes.len(), 4);
    assert_eq!(net.vars.len(), 8);
    assert!(net.nodes.len() <= 6);
    // Each original auxiliary now faces a copy of the opposite node.
    assert_eq!(net.redexes[0].0, var(0));
    assert_eq!(net.redexes[0].1.tag(), Tag::Dup);
    assert_eq!(net.redexes[2].0, var(2));
    assert_eq!(net.redexes[2].1.tag(), Tag::Con);
}

#[test]
fn test_eras_discards_leaf() {
    let mut net = GNet::new();
    let book = Book::new();
    let before = net.clone();
    interact(&mut net, &book, Port::new(Tag::Era, 0), num(5)).unwrap();
    assert_eq!(net, before);
}

#[test]
fn test_eras_propagates_into_node() {
    let mut net = GNet::new();
    let book = Book::new();
    net.nodes.push(Node { lab: 0, a: var(0), b: var(1) });
    net.vars.push(None);
    net.vars.push(None);
    let era = Port::new(Tag::Era, 0);
    interact(&mut net, &book, era, Port::new(Tag::Con, 0)).unwrap();
    assert_eq!(net.redexes, vec![(era, var(0)), (era, var(1))]);
    assert_eq!(net.reuse, vec![0]);
}

#[test]
fn test_copy_duplicates_numeral() {
    let mut net = GNet::new();
    let book = Book::new();
    net.nodes.push(Node { lab: 0, a: var(0), b: var(1) });
    net.vars.push(None);
    net.vars.push(None);
    interact(&mut net, &book, Port::new(Tag::Dup, 0), num(9)).unwrap();
    assert_eq!(net.redexes, vec![(var(0), num(9)), (var(1), num(9))]);
    assert_eq!(net.reuse, vec![0]);
}

#[test]
fn test_call_beta_reduces() {
    // Applying the identity lambda to a numeral wires the numeral to the
    // application's result.
    let mut net = GNet::new();
    let book = Book::new();
    // The lambda: bound variable and body are the same wire.
    net.nodes.push(Node { lab: 0, a: var(0), b: var(0) });
    // The application: argument 42, result var 1.
    net.nodes.push(Node { lab: 0, a: num(42), b: var(1) });
    net.vars.push(None);
    net.vars.push(None);
    net.redexes.push((Port::new(Tag::Con, 0), Port::new(Tag::App, 1)));
    let steps = reduce(&mut net, &book, 100).unwrap();
    assert!(steps >= 1);
    assert!(net.redexes.is_empty());
    assert_eq!(net.vars[1], Some(num(42)));
}

#[test]
fn test_oper_add_single_step() {
    // Numerals 10 and 3 under an "add" operator reduce in one step.
    let mut net = GNet::new();
    let book = Book::new();
    net.nodes.push(Node { lab: OP_ADD, a: num(10), b: var(0) });
    net.vars.push(None);
    interact(&mut net, &book, num(3), Port::new(Tag::Opr, 0)).unwrap();
    assert_eq!(net.redexes, vec![(var(0), num(13))]);
    reduce(&mut net, &book, 10).unwrap();
    assert_eq!(net.vars[0], Some(num(13)));
}

#[test]
fn test_oper_div_by_zero_is_zero() {
    // 10 divided by 0 yields the zero numeral, not a failure.
    let mut net = GNet::new();
    let book = Book::new();
    net.nodes.push(Node { lab: OP_DIV, a: num(10), b: var(0) });
    net.vars.push(None);
    interact(&mut net, &book, num(0), Port::new(Tag::Opr, 0)).unwrap();
    reduce(&mut net, &book, 10).unwrap();
    assert_eq!(net.vars[0], Some(num(0)));
}

#[test]
fn test_oper_binds_left_operand_first() {
    // The operator's first slot is an open wire: the first numeral to
    // arrive binds as the left operand, the second fires the operation.
    let mut net = GNet::new();
    let book = Book::new();
    net.nodes.push(Node { lab: OP_SUB, a: var(0), b: var(1) });
    net.vars.push(Some(num(3)));
    net.vars.push(None);
    net.redexes.push((num(10), Port::new(Tag::Opr, 0)));
    reduce(&mut net, &book, 100).unwrap();
    assert!(net.redexes.is_empty());
    // 10 arrived first and bound as the left operand: 10 - 3.
    assert_eq!(net.vars[1], Some(num(7)));
}

#[test]
fn test_deref_identity_applied_to_numeral() {
    // Book holds `id` (arity 1, argument wired directly to result).
    // Applying it to 42 and reducing yields the numeral port 42.
    let mut tpl = GNet::new();
    tpl.nodes.push(Node { lab: 0, a: var(1), b: var(1) });
    tpl.vars.push(Some(Port::new(Tag::Con, 0)));
    tpl.vars.push(None);
    let mut book = Book::new();
    book.insert("id".to_string(), Def { name: "id".to_string(), arity: 1, net: tpl });

    let mut net = GNet::new();
    net.nodes.push(Node { lab: 0, a: num(42), b: var(0) });
    net.vars.push(None);
    net.redexes.push((Port::new(Tag::Ref, 0), Port::new(Tag::App, 0)));

    let steps = reduce(&mut net, &book, 100).unwrap();
    assert!(steps >= 2);
    assert!(net.redexes.is_empty());
    assert_eq!(net.vars[0], Some(num(42)));
}

#[test]
fn test_deref_missing_name_aborts_cleanly() {
    // Dereferencing an unregistered name aborts with a lookup error and
    // leaves the net in its pre-call state.
    let book = Book::new();
    let mut net = GNet::new();
    net.nodes.push(Node { lab: 0, a: num(1), b: var(0) });
    net.vars.push(None);
    let before = net.clone();
    let r = interact(&mut net, &book, Port::new(Tag::Ref, 3), Port::new(Tag::App, 0));
    assert_eq!(
        r,
        Err(InteractError::Lookup { a: Port::new(Tag::Ref, 3), b: Port::new(Tag::App, 0) })
    );
    assert_eq!(net, before);
}

#[test]
fn test_reduce_restores_failing_redex() {
    let book = Book::new();
    let mut net = GNet::new();
    net.vars.push(None);
    net.redexes.push((Port::new(Tag::Ref, 9), var(0)));
    let before = net.clone();
    let r = reduce(&mut net, &book, 100);
    assert!(r.is_err());
    assert_eq!(net, before);
}

#[test]
fn test_unmatched_pair_is_invalid() {
    let book = Book::new();
    let mut net = GNet::new();
    net.nodes.push(Node { lab: 0, a: var(0), b: var(1) });
    net.vars.push(None);
    net.vars.push(None);
    let before = net.clone();
    let r = interact(&mut net, &book, num(5), Port::new(Tag::Con, 0));
    assert!(matches!(r, Err(InteractError::Invalid { .. })));
    assert_eq!(net, before);
}

#[test]
fn test_quiescence_is_idempotent() {
    // Once no redex is pending, driving again performs zero rewrites and
    // leaves the net unchanged.
    let mut net = GNet::new();
    let book = Book::new();
    net.nodes.push(Node { lab: OP_ADD, a: num(1), b: var(0) });
    net.vars.push(None);
    net.redexes.push((num(2), Port::new(Tag::Opr, 0)));
    reduce(&mut net, &book, 100).unwrap();
    assert!(net.redexes.is_empty());
    let settled = net.clone();
    let steps = reduce(&mut net, &book, 100).unwrap();
    assert_eq!(steps, 0);
    assert_eq!(net, settled);
}

#[test]
fn test_reduce_respects_budget() {
    let mut net = GNet::new();
    let book = Book::new();
    net.nodes.push(Node { lab: OP_ADD, a: num(1), b: var(0) });
    net.nodes.push(Node { lab: OP_ADD, a: num(2), b: var(1) });
    net.vars.push(None);
    net.vars.push(None);
    net.redexes.push((num(10), Port::new(Tag::Opr, 0)));
    net.redexes.push((num(20), Port::new(Tag::Opr, 1)));
    let steps = reduce(&mut net, &book, 1).unwrap();
    assert_eq!(steps, 1);
    assert!(!net.redexes.is_empty());
}

#[test]
fn test_confluence_sampled() {
    // Two independent redexes reduced in either order reach the same
    // normal form.
    let build = |flip: bool| {
        let mut net = GNet::new();
        net.nodes.push(Node { lab: OP_ADD, a: num(1), b: var(0) });
        net.nodes.push(Node { lab: OP_SUB, a: num(5), b: var(1) });
        net.vars.push(None);
        net.vars.push(None);
        let r0 = (num(2), Port::new(Tag::Opr, 0));
        let r1 = (num(3), Port::new(Tag::Opr, 1));
        if flip {
            net.redexes.push(r1);
            net.redexes.push(r0);
        } else {
            net.redexes.push(r0);
            net.redexes.push(r1);
        }
        net
    };
    let book = Book::new();
    let mut first = build(false);
    let mut second = build(true);
    reduce(&mut first, &book, 100).unwrap();
    reduce(&mut second, &book, 100).unwrap();
    assert!(first.redexes.is_empty() && second.redexes.is_empty());
    assert_eq!(first.vars, second.vars);
    assert_eq!(first.vars[0], Some(num(3)));
    assert_eq!(first.vars[1], Some(num(2)));
}
