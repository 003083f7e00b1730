use hvmx::{Book, Def, GNet, Numb, Port, Tag};

#[test]
fn test_port_creation() {
    let port = Port::new(Tag::Var, 42);
    assert_eq!(port.tag(), Tag::Var);
    assert_eq!(port.val(), 42);
}

#[test]
fn test_port_roundtrip_all_tags() {
    let tags = [
        Tag::Var,
        Tag::Ref,
        Tag::Num,
        Tag::Con,
        Tag::Dup,
        Tag::Era,
        Tag::App,
        Tag::Opr,
    ];
    for tag in tags {
        let port = Port::new(tag, 0x1234_5678);
        assert_eq!(port.tag(), tag);
        assert_eq!(port.val(), 0x1234_5678 & 0x1FFF_FFFF);
    }
}

#[test]
fn test_port_payload_truncated() {
    // A payload wider than 29 bits is masked, never rejected.
    let port = Port::new(Tag::Num, 0xFFFF_FFFF);
    assert_eq!(port.tag(), Tag::Num);
    assert_eq!(port.val(), 0x1FFF_FFFF);
}

#[test]
fn test_core_imports() {
    let _port: Port = Port::new(Tag::Var, 0);
}

#[test]
fn test_numb_creation() {
    let n = Numb::new(42);
    assert_eq!(n.0, 42);
}

#[test]
fn test_numb_add() {
    let a = Numb::new(10);
    let b = Numb::new(20);
    let c = a.add(b);
    assert_eq!(c.0, 30);
}

#[test]
fn test_numb_sub() {
    let a = Numb::new(50);
    let b = Numb::new(20);
    let c = a.sub(b);
    assert_eq!(c.0, 30);
}

#[test]
fn test_numb_mul() {
    let a = Numb::new(5);
    let b = Numb::new(3);
    let c = a.mul(b);
    assert_eq!(c.0, 15);
}

#[test]
fn test_numb_div() {
    let a = Numb::new(20);
    let b = Numb::new(4);
    let c = a.div(b);
    assert_eq!(c.0, 5);
}

#[test]
fn test_numb_div_by_zero() {
    let a = Numb::new(10);
    let b = Numb::new(0);
    let c = a.div(b);
    assert_eq!(c.0, 0);
}

#[test]
fn test_numb_add_wraps() {
    // 2^60 - 1 plus one wraps to the zero numeral.
    let a = Numb::new(0x0FFF_FFFF_FFFF_FFFF);
    let one = Numb::new(1);
    assert_eq!(a.add(one).0, 0);
    // And subtracting the addend returns to the start.
    assert_eq!(a.add(one).sub(one).0, a.0);
}

#[test]
fn test_numb_sub_wraps() {
    let a = Numb::new(0);
    let b = Numb::new(1);
    assert_eq!(a.sub(b).0, 0x0FFF_FFFF_FFFF_FFFF);
}

#[test]
fn test_numb_new_masks() {
    let n = Numb::new(u64::MAX);
    assert_eq!(n.0, 0x0FFF_FFFF_FFFF_FFFF);
}

#[test]
fn test_gnet_creation() {
    let net = GNet::new();
    assert_eq!(net.nodes.len(), 0);
}

#[test]
fn test_book_creation() {
    let book = Book::new();
    assert_eq!(book.len(), 0);
    assert!(book.is_empty());
}

#[test]
fn test_book_insert() {
    let mut book = Book::new();
    let def = Def { name: "test".to_string(), arity: 1, net: GNet::new() };

    book.insert("test".to_string(), def);
    assert_eq!(book.len(), 1);
}

#[test]
fn test_book_get() {
    let mut book = Book::new();
    let def = Def { name: "func".to_string(), arity: 2, net: GNet::new() };

    book.insert("func".to_string(), def.clone());
    let retrieved = book.get("func");

    assert!(retrieved.is_some());
    assert_eq!(retrieved.unwrap().name, "func");
}

#[test]
fn test_book_get_missing() {
    let book = Book::new();
    let result = book.get("missing");
    assert!(result.is_none());
}

#[test]
fn test_book_overwrite_keeps_index() {
    let mut book = Book::new();
    book.insert("f".to_string(), Def { name: "f".to_string(), arity: 1, net: GNet::new() });
    book.insert("g".to_string(), Def { name: "g".to_string(), arity: 1, net: GNet::new() });
    // Last write wins without growing the book.
    book.insert("f".to_string(), Def { name: "f".to_string(), arity: 3, net: GNet::new() });
    assert_eq!(book.len(), 2);
    assert_eq!(book.get("f").unwrap().arity, 3);
}
