//! Elements of the prime field of order `2^31 - 1`.
//!
//! The arithmetic itself is done by `p3_mersenne_31::Mersenne31`; this module
//! keeps a canonical `u32` copy of each element so that verified code can
//! state what every operation returns.
use p3_field::{AbstractField, PrimeField32};
use p3_mersenne_31::Mersenne31;
use vstd::prelude::*;

verus! {

/// The field's order, the Mersenne prime `2^31 - 1`.
pub const MODULUS: u32 = 0x7fff_ffff;

/// The field's order as a mathematical integer.
pub open spec fn modulus() -> int {
    MODULUS as int
}

/// `a + b` in the field.
pub open spec fn fadd(a: int, b: int) -> int {
    (a + b) % modulus()
}

/// `a - b` in the field.
pub open spec fn fsub(a: int, b: int) -> int {
    (a - b) % modulus()
}

/// `a * b` in the field.
pub open spec fn fmul(a: int, b: int) -> int {
    (a * b) % modulus()
}

/// `a / b` in the field: the element `q` with `q * b = a`. For `b` not
/// divisible by the prime exactly one canonical `q` has this property.
pub open spec fn fdiv(a: int, b: int) -> int {
    choose|q: int| 0 <= q < modulus() && fmul(q, b) == a % modulus()
}

/// Relies on `AbstractField::from_wrapped_u32` of `Mersenne31`, read back with
/// `as_canonical_u32`: any `u32` is reduced modulo the prime.
#[verifier::external_body]
fn reduce_u32(n: u32) -> (r: u32)
    ensures
        r as int == n as int % modulus(),
{
    Mersenne31::from_wrapped_u32(n).as_canonical_u32()
}

/// Relies on `Add for Mersenne31` (operands built with `from_canonical_u32`,
/// result read with `as_canonical_u32`): the canonical sum modulo the prime.
#[verifier::external_body]
fn add_canonical(a: u32, b: u32) -> (r: u32)
    requires
        a < MODULUS,
        b < MODULUS,
    ensures
        r as int == fadd(a as int, b as int),
{
    (Mersenne31::from_canonical_u32(a) + Mersenne31::from_canonical_u32(b)).as_canonical_u32()
}

/// Relies on `Sub for Mersenne31` (operands built with `from_canonical_u32`,
/// result read with `as_canonical_u32`): the canonical difference modulo the prime.
#[verifier::external_body]
fn sub_canonical(a: u32, b: u32) -> (r: u32)
    requires
        a < MODULUS,
        b < MODULUS,
    ensures
        r as int == fsub(a as int, b as int),
{
    (Mersenne31::from_canonical_u32(a) - Mersenne31::from_canonical_u32(b)).as_canonical_u32()
}

/// Relies on `Mul for Mersenne31` (operands built with `from_canonical_u32`,
/// result read with `as_canonical_u32`): the canonical product modulo the prime.
#[verifier::external_body]
fn mul_canonical(a: u32, b: u32) -> (r: u32)
    requires
        a < MODULUS,
        b < MODULUS,
    ensures
        r as int == fmul(a as int, b as int),
{
    (Mersenne31::from_canonical_u32(a) * Mersenne31::from_canonical_u32(b)).as_canonical_u32()
}

/// Relies on `Div for Mersenne31` (multiplication by `Field::inverse`, which
/// panics on zero; operands built with `from_canonical_u32`, result read with
/// `as_canonical_u32`): the canonical quotient, whose product with `b` is `a`;
/// the order being prime, no other canonical element has that product.
#[verifier::external_body]
fn div_canonical(a: u32, b: u32) -> (r: u32)
    requires
        a < MODULUS,
        0 < b < MODULUS,
    ensures
        r < MODULUS,
        fmul(r as int, b as int) == a as int,
        r as int == fdiv(a as int, b as int),
{
    (Mersenne31::from_canonical_u32(a) / Mersenne31::from_canonical_u32(b)).as_canonical_u32()
}

/// A canonical element of the field: an integer in `[0, 2^31 - 1)`.
#[derive(Clone, Copy, PartialEq, Eq, Structural, Debug)]
pub struct M31 {
    val: u32,
}

impl View for M31 {
    type V = int;

    closed spec fn view(&self) -> int {
        self.val as int
    }
}

impl M31 {
    #[verifier::type_invariant]
    spec fn canonical(self) -> bool {
        self.val < MODULUS
    }

    /// The additive identity.
    pub fn zero() -> (r: M31)
        ensures
            r@ == 0,
    {
        M31 { val: 0 }
    }

    /// The multiplicative identity.
    pub fn one() -> (r: M31)
        ensures
            r@ == 1,
    {
        M31 { val: 1 }
    }

    /// The element that `n` stands for: `n` reduced modulo the prime.
    pub fn from_u32(n: u32) -> (r: M31)
        ensures
            r@ == n as int % modulus(),
    {
        let v = reduce_u32(n);
        M31 { val: v }
    }

    /// The canonical integer of this element.
    pub fn value(&self) -> (r: u32)
        ensures
            r as int == self@,
            r < MODULUS,
    {
        proof {
            use_type_invariant(self);
        }
        self.val
    }

    /// Whether this is the additive identity.
    pub fn is_zero(&self) -> (r: bool)
        ensures
            r == (self@ == 0),
    {
        self.val == 0
    }

    /// The sum of `self` and `o`.
    pub fn add(self, o: M31) -> (r: M31)
        ensures
            r@ == fadd(self@, o@),
    {
        proof {
            use_type_invariant(self);
            use_type_invariant(o);
        }
        M31 { val: add_canonical(self.val, o.val) }
    }

    /// `o` taken from `self`.
    pub fn sub(self, o: M31) -> (r: M31)
        ensures
            r@ == fsub(self@, o@),
    {
        proof {
            use_type_invariant(self);
            use_type_invariant(o);
        }
        M31 { val: sub_canonical(self.val, o.val) }
    }

    /// The product of `self` and `o`.
    pub fn mul(self, o: M31) -> (r: M31)
        ensures
            r@ == fmul(self@, o@),
    {
        proof {
            use_type_invariant(self);
            use_type_invariant(o);
        }
        M31 { val: mul_canonical(self.val, o.val) }
    }

    /// Division by a nonzero element: the quotient times `o` gives back `self`.
    pub fn div(self, o: M31) -> (r: M31)
        requires
            o@ != 0,
        ensures
            r@ == fdiv(self@, o@),
            fmul(r@, o@) == self@,
    {
        proof {
            use_type_invariant(self);
            use_type_invariant(o);
        }
        M31 { val: div_canonical(self.val, o.val) }
    }
}

} // verus!
