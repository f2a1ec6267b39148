//! Field elements of the Mersenne-31 prime field and their arithmetic.
//!
//! A field element is modelled as a canonical residue: a `u32` strictly
//! below the prime `P = 2^31 - 1`.  The arithmetic itself is carried out
//! by `p3_mersenne_31::Mersenne31` behind trusted wrappers; the
//! mathematical meaning of each operation is stated by the spec
//! functions `fadd`, `fsub`, `fmul` and `fdiv` over `int`.

use p3_field::PrimeField32;
use p3_mersenne_31::Mersenne31;
use vstd::prelude::*;

verus! {

/// The Mersenne prime 2^31 - 1: the order of the field.
pub const P: u32 = 0x7FFF_FFFF;

/// A field element in canonical (fully reduced) representation.
#[derive(Clone, Copy, Debug, PartialEq, Eq, Structural)]
pub struct Fe {
    pub v: u32,
}

/// A field element is valid when its representative is canonical.
pub open spec fn fe_valid(x: Fe) -> bool {
    x.v < P
}

/// Field addition on canonical residues.
pub open spec fn fadd(a: int, b: int) -> int {
    (a + b) % (P as int)
}

/// Field subtraction on canonical residues.
pub open spec fn fsub(a: int, b: int) -> int {
    (a - b) % (P as int)
}

/// Field multiplication on canonical residues.
pub open spec fn fmul(a: int, b: int) -> int {
    (a * b) % (P as int)
}

/// `b^e` modulo `P`.
pub open spec fn pow_mod(b: int, e: nat) -> int
    decreases e,
{
    if e == 0 {
        1int % (P as int)
    } else {
        (b * pow_mod(b, (e - 1) as nat)) % (P as int)
    }
}

/// Field division: multiplication by the multiplicative inverse, which
/// by Fermat's little theorem equals `b^(P-2)` for `b != 0`.
pub open spec fn fdiv(a: int, b: int) -> int {
    (a * pow_mod(b, (P - 2) as nat)) % (P as int)
}

impl Fe {
    /// Builds the field element with the given representative, reduced
    /// into the canonical range.
    pub fn new(v: u32) -> (r: Fe)
        ensures
            r.v == v % P,
            fe_valid(r),
    {
        Fe { v: v % P }
    }

    /// The additive identity.
    pub fn zero() -> (r: Fe)
        ensures
            r.v == 0,
    {
        Fe { v: 0 }
    }

    /// The multiplicative identity.
    pub fn one() -> (r: Fe)
        ensures
            r.v == 1,
    {
        Fe { v: 1 }
    }
}

/// Relies on `p3_mersenne_31::Mersenne31`'s `Add` impl: the canonical
/// representative of the sum of two field elements, i.e. addition
/// modulo 2^31 - 1.  `Mersenne31::new` reduces its argument modulo the
/// prime and `as_canonical_u32` returns the canonical representative.
#[verifier::external_body]
pub(crate) fn fe_add(a: Fe, b: Fe) -> (r: Fe)
    requires
        fe_valid(a),
        fe_valid(b),
    ensures
        fe_valid(r),
        r.v as int == fadd(a.v as int, b.v as int),
{
    let x = Mersenne31::new(a.v) + Mersenne31::new(b.v);
    Fe { v: x.as_canonical_u32() }
}

/// Relies on `p3_mersenne_31::Mersenne31`'s `Sub` impl: the canonical
/// representative of the difference of two field elements modulo
/// 2^31 - 1.
#[verifier::external_body]
pub(crate) fn fe_sub(a: Fe, b: Fe) -> (r: Fe)
    requires
        fe_valid(a),
        fe_valid(b),
    ensures
        fe_valid(r),
        r.v as int == fsub(a.v as int, b.v as int),
{
    let x = Mersenne31::new(a.v) - Mersenne31::new(b.v);
    Fe { v: x.as_canonical_u32() }
}

/// Relies on `p3_mersenne_31::Mersenne31`'s `Mul` impl: the canonical
/// representative of the product of two field elements modulo 2^31 - 1.
#[verifier::external_body]
pub(crate) fn fe_mul(a: Fe, b: Fe) -> (r: Fe)
    requires
        fe_valid(a),
        fe_valid(b),
    ensures
        fe_valid(r),
        r.v as int == fmul(a.v as int, b.v as int),
{
    let x = Mersenne31::new(a.v) * Mersenne31::new(b.v);
    Fe { v: x.as_canonical_u32() }
}

/// Relies on `p3_mersenne_31::Mersenne31`'s `Div` impl, which
/// multiplies by the unique multiplicative inverse of the divisor
/// (`p3_field::Field::inverse`, which panics on zero, hence the
/// precondition).  The inverse of `b != 0` is `b^(P-2)` by Fermat's
/// little theorem, so the quotient is `fdiv`; multiplying the quotient
/// back by the divisor recovers the dividend.
#[verifier::external_body]
pub(crate) fn fe_div(a: Fe, b: Fe) -> (r: Fe)
    requires
        fe_valid(a),
        fe_valid(b),
        b.v != 0,
    ensures
        fe_valid(r),
        r.v as int == fdiv(a.v as int, b.v as int),
        fmul(r.v as int, b.v as int) == a.v as int,
{
    let x = Mersenne31::new(a.v) / Mersenne31::new(b.v);
    Fe { v: x.as_canonical_u32() }
}

} // verus!
