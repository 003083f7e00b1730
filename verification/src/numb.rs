//! Numb: 60-bit numerals.  Addition, subtraction and multiplication wrap
//! silently modulo 2^60; dividing by the zero numeral yields the zero
//! numeral instead of trapping.  The machine never faults on arithmetic.

use vstd::prelude::*;

verus! {

use vstd::arithmetic::div_mod::{
    lemma_fundamental_div_mod, lemma_mod_bound, lemma_mod_multiples_vanish, lemma_small_mod,
};
use vstd::arithmetic::mul::lemma_mul_is_associative;
use vstd::arithmetic::power2::{lemma2_to64_rest, pow2};
use vstd::bits::{lemma_u64_low_bits_mask_is_mod, low_bits_mask};

/// Mask selecting the 60 value bits of a numeral.
pub const NUMB_MASK: u64 = 0x0FFF_FFFF_FFFF_FFFF;

/// The numeral modulus: values range over `0 .. NUMB_MOD`.
pub const NUMB_MOD: u64 = 0x1000_0000_0000_0000;

/// A 60-bit numeral.
#[derive(Debug, Clone, Copy, PartialEq, Eq, Structural)]
pub struct Numb(pub u64);

/// Masking a 64-bit word to the low 60 bits is reduction modulo 2^60.
proof fn lemma_mask_is_mod60(x: u64)
    ensures
        x & NUMB_MASK == x % NUMB_MOD,
{
    lemma2_to64_rest();
    lemma_u64_low_bits_mask_is_mod(x, 60);
    assert(pow2(60) == NUMB_MOD as nat);
    assert(low_bits_mask(60) == NUMB_MASK as nat);
}

/// Reduction modulo 2^60 ignores multiples of 2^64.
proof fn lemma_mod60_shift(s: u64, z: int, k: int)
    requires
        z == s + k * 0x1_0000_0000_0000_0000,
    ensures
        z % (NUMB_MOD as int) == s % NUMB_MOD,
        0 <= z % (NUMB_MOD as int) < NUMB_MOD,
{
    lemma_mul_is_associative(NUMB_MOD as int, 16, k);
    assert(z == (NUMB_MOD as int) * (16 * k) + s);
    lemma_mod_multiples_vanish(16 * k, s as int, NUMB_MOD as int);
    lemma_mod_bound(z, NUMB_MOD as int);
}

impl Numb {
    /// A numeral is well formed when it lies in the 60-bit domain.
    pub open spec fn wf(self) -> bool {
        self.0 < NUMB_MOD
    }

    /// The sum, reduced into the 60-bit domain.
    pub open spec fn spec_add(self, rhs: Numb) -> Numb {
        Numb(((self.0 + rhs.0) % (NUMB_MOD as int)) as u64)
    }

    /// The difference, reduced into the 60-bit domain.
    pub open spec fn spec_sub(self, rhs: Numb) -> Numb {
        Numb(((self.0 - rhs.0) % (NUMB_MOD as int)) as u64)
    }

    /// The product, reduced into the 60-bit domain.
    pub open spec fn spec_mul(self, rhs: Numb) -> Numb {
        Numb(((self.0 * rhs.0) % (NUMB_MOD as int)) as u64)
    }

    /// The quotient reduced into the 60-bit domain, or the zero numeral
    /// when the divisor is the zero numeral.
    pub open spec fn spec_div(self, rhs: Numb) -> Numb {
        if rhs.0 == 0 {
            Numb(0)
        } else {
            Numb(((self.0 as int / rhs.0 as int) % (NUMB_MOD as int)) as u64)
        }
    }

    /// Build a numeral, truncating the input to the 60-bit domain.
    pub fn new(val: u64) -> (n: Numb)
        ensures
            n == Numb(val & NUMB_MASK),
            n.0 == val % NUMB_MOD,
            n.wf(),
    {
        proof {
            lemma_mask_is_mod60(val);
        }
        Numb(val & NUMB_MASK)
    }

    /// Wrapping addition modulo 2^60.
    pub fn add(self, other: Numb) -> (r: Numb)
        ensures
            r == self.spec_add(other),
            r.wf(),
    {
        let s = self.0.wrapping_add(other.0);
        proof {
            lemma_mask_is_mod60(s);
            let z = self.0 + other.0;
            if z > u64::MAX {
                lemma_mod60_shift(s, z, 1);
            } else {
                lemma_mod60_shift(s, z, 0);
            }
        }
        Numb(s & NUMB_MASK)
    }

    /// Wrapping subtraction modulo 2^60.
    pub fn sub(self, other: Numb) -> (r: Numb)
        ensures
            r == self.spec_sub(other),
            r.wf(),
    {
        let s = self.0.wrapping_sub(other.0);
        proof {
            lemma_mask_is_mod60(s);
            let z = self.0 - other.0;
            if z < 0 {
                lemma_mod60_shift(s, z, -1);
            } else {
                lemma_mod60_shift(s, z, 0);
            }
        }
        Numb(s & NUMB_MASK)
    }

    /// Wrapping multiplication modulo 2^60.
    pub fn mul(self, other: Numb) -> (r: Numb)
        ensures
            r == self.spec_mul(other),
            r.wf(),
    {
        let s = self.0.wrapping_mul(other.0);
        proof {
            lemma_mask_is_mod60(s);
            let z = self.0 * other.0;
            lemma_fundamental_div_mod(z, 0x1_0000_0000_0000_0000);
            lemma_mod60_shift(s, z, z / 0x1_0000_0000_0000_0000);
        }
        Numb(s & NUMB_MASK)
    }

    /// Safe division: dividing by the zero numeral yields the zero numeral.
    pub fn div(self, other: Numb) -> (r: Numb)
        ensures
            r == self.spec_div(other),
            r.wf(),
    {
        if other.0 == 0 {
            Numb(0)
        } else {
            let q = self.0 / other.0;
            proof {
                lemma_mask_is_mod60(q);
                lemma_mod_bound(q as int, NUMB_MOD as int);
            }
            Numb(q & NUMB_MASK)
        }
    }
}

/// Wraparound addition is cancelled by subtraction: for well-formed
/// numerals, `(a + b) - b == a`.
pub proof fn lemma_numb_add_sub_cancel(a: Numb, b: Numb)
    requires
        a.wf(),
        b.wf(),
    ensures
        a.spec_add(b).spec_sub(b) == a,
{
    let m = NUMB_MOD as int;
    let s = (a.0 + b.0) % m;
    if a.0 + b.0 < m {
        lemma_small_mod((a.0 + b.0) as nat, m as nat);
        lemma_small_mod(a.0 as nat, m as nat);
    } else {
        lemma_mod_multiples_vanish(1, a.0 + b.0 - m, m);
        lemma_small_mod((a.0 + b.0 - m) as nat, m as nat);
        assert(s == a.0 + b.0 - m);
        lemma_mod_multiples_vanish(-1, a.0 as int, m);
        lemma_small_mod(a.0 as nat, m as nat);
    }
}

/// Dividing any numeral by the zero numeral yields the zero numeral.
pub proof fn lemma_numb_div_zero(a: Numb)
    ensures
        a.spec_div(Numb(0)) == Numb(0),
{
}

/// Every arithmetic result lies in the 60-bit domain, whatever the inputs.
pub proof fn lemma_numb_ops_wf(a: Numb, b: Numb)
    ensures
        a.spec_add(b).wf(),
        a.spec_sub(b).wf(),
        a.spec_mul(b).wf(),
        a.spec_div(b).wf(),
{
    let m = NUMB_MOD as int;
    lemma_mod_bound(a.0 + b.0, m);
    lemma_mod_bound(a.0 - b.0, m);
    lemma_mod_bound(a.0 * b.0, m);
    if b.0 != 0 {
        lemma_mod_bound(a.0 as int / b.0 as int, m);
    }
}

} // verus!
