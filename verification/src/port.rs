//! Ports: immutable 32-bit tagged values.  The high 3 bits carry the tag
//! (the node kind), the low 29 bits carry the payload: a node-store
//! address, a variable index, a definition index, or an inline numeral,
//! depending on the tag.

use vstd::prelude::*;

verus! {

/// The closed set of node kinds a port can denote.
#[derive(Debug, Clone, Copy, PartialEq, Eq, Structural)]
pub enum Tag {
    /// A wire endpoint: the payload indexes the net's variable slots.
    Var,
    /// A global reference: the payload indexes the definition book.
    Ref,
    /// An inline numeral: the payload is the value itself.
    Num,
    /// A constructor node (also the lambda role): the payload is a node address.
    Con,
    /// A duplicator node: the payload is a node address.
    Dup,
    /// An eraser: a leaf that consumes whatever it meets.
    Era,
    /// An application node: the payload is a node address.
    App,
    /// A binary-operator node: the payload is a node address.
    Opr,
}

/// Payload carried by a port.
pub type Val = u32;

/// Mask selecting the 29 payload bits of a packed port.
pub const VAL_MASK: u32 = 0x1FFF_FFFF;

/// A port: one 32-bit word, 3 tag bits over 29 payload bits.
#[derive(Debug, Clone, Copy, PartialEq, Eq, Structural)]
pub struct Port(u32);

/// The 3-bit code a tag packs to.
pub open spec fn tag_code(t: Tag) -> u32 {
    match t {
        Tag::Var => 0,
        Tag::Ref => 1,
        Tag::Num => 2,
        Tag::Con => 3,
        Tag::Dup => 4,
        Tag::Era => 5,
        Tag::App => 6,
        Tag::Opr => 7,
    }
}

/// The tag a 3-bit code unpacks to.
pub open spec fn code_tag(c: u32) -> Tag {
    if c == 0 {
        Tag::Var
    } else if c == 1 {
        Tag::Ref
    } else if c == 2 {
        Tag::Num
    } else if c == 3 {
        Tag::Con
    } else if c == 4 {
        Tag::Dup
    } else if c == 5 {
        Tag::Era
    } else if c == 6 {
        Tag::App
    } else {
        Tag::Opr
    }
}

impl Port {
    /// The packed word `new(tag, val)` deterministically produces.
    pub closed spec fn spec_make(tag: Tag, val: Val) -> Port {
        Port((tag_code(tag) << 29) | (val & VAL_MASK))
    }

    /// The tag held in the high bits.
    pub closed spec fn spec_tag(&self) -> Tag {
        code_tag(self.0 >> 29)
    }

    /// The payload held in the low bits.
    pub closed spec fn spec_val(&self) -> Val {
        self.0 & VAL_MASK
    }

    /// Pack a tag and a payload into a port.  A payload wider than 29 bits
    /// is truncated to the mask, never rejected.
    #[verifier::when_used_as_spec(spec_make)]
    pub fn new(tag: Tag, val: Val) -> (p: Port)
        ensures
            p == Port::spec_make(tag, val),
            p.spec_tag() == tag,
            p.spec_val() == val & VAL_MASK,
    {
        let c: u32 = match tag {
            Tag::Var => 0,
            Tag::Ref => 1,
            Tag::Num => 2,
            Tag::Con => 3,
            Tag::Dup => 4,
            Tag::Era => 5,
            Tag::App => 6,
            Tag::Opr => 7,
        };
        let p = Port((c << 29) | (val & VAL_MASK));
        proof {
            lemma_pack_unpack(c, val);
        }
        p
    }

    /// Read the tag back out of the packed word.
    #[verifier::when_used_as_spec(spec_tag)]
    pub fn tag(&self) -> (t: Tag)
        ensures
            t == self.spec_tag(),
    {
        let w: u32 = self.0;
        let c = w >> 29;
        proof {
            assert(w >> 29 <= 7) by (bit_vector);
        }
        if c == 0 {
            Tag::Var
        } else if c == 1 {
            Tag::Ref
        } else if c == 2 {
            Tag::Num
        } else if c == 3 {
            Tag::Con
        } else if c == 4 {
            Tag::Dup
        } else if c == 5 {
            Tag::Era
        } else if c == 6 {
            Tag::App
        } else {
            Tag::Opr
        }
    }

    /// Read the payload back out of the packed word.
    #[verifier::when_used_as_spec(spec_val)]
    pub fn val(&self) -> (v: Val)
        ensures
            v == self.spec_val(),
            v <= VAL_MASK,
    {
        let w: u32 = self.0;
        proof {
            assert(w & 0x1FFF_FFFFu32 <= 0x1FFF_FFFF) by (bit_vector);
        }
        w & VAL_MASK
    }
}

/// Packing then unpacking returns the code and the masked payload unchanged.
proof fn lemma_pack_unpack(c: u32, v: u32)
    requires
        c <= 7,
    ensures
        ((c << 29) | (v & VAL_MASK)) >> 29 == c,
        ((c << 29) | (v & VAL_MASK)) & VAL_MASK == v & VAL_MASK,
{
    assert(c <= 7 ==> ((c << 29) | (v & 0x1FFF_FFFFu32)) >> 29 == c) by (bit_vector);
    assert(((c << 29) | (v & 0x1FFF_FFFFu32)) & 0x1FFF_FFFFu32 == v & 0x1FFF_FFFFu32)
        by (bit_vector);
}

/// A port's payload never exceeds the payload mask.
pub proof fn lemma_val_bounded(p: Port)
    ensures
        p.spec_val() <= VAL_MASK,
{
    let w = p.0;
    assert(w & 0x1FFF_FFFFu32 <= 0x1FFF_FFFF) by (bit_vector);
}

/// Packing round-trips: for every tag and payload, the tag comes back
/// unchanged and the payload comes back masked to its bit width.
pub proof fn lemma_port_roundtrip(t: Tag, v: Val)
    ensures
        Port::new(t, v).spec_tag() == t,
        Port::new(t, v).spec_val() == v & VAL_MASK,
{
    lemma_pack_unpack(tag_code(t), v);
}

/// Packing is determined by the masked payload: `(t, v)` and
/// `(t, v & VAL_MASK)` build the same port.
pub proof fn lemma_port_masked_payload(t: Tag, v: Val)
    ensures
        Port::new(t, v) == Port::new(t, v & VAL_MASK),
{
    assert((v & VAL_MASK) & VAL_MASK == v & VAL_MASK) by (bit_vector);
}

/// A port is determined by its tag and payload: two ports that agree on
/// both are the same port.
pub proof fn lemma_port_determined(p: Port, q: Port)
    requires
        p.spec_tag() == q.spec_tag(),
        p.spec_val() == q.spec_val(),
    ensures
        p == q,
{
    let x = p.0;
    let y = q.0;
    assert(x >> 29 <= 7 && y >> 29 <= 7) by (bit_vector);
    assert(x >> 29 == y >> 29 && x & VAL_MASK == y & VAL_MASK ==> x == y) by (bit_vector);
}

} // verus!
