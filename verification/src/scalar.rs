//! Exact rational scalars.
//!
//! Ray parameters (`t` values) produced by box slab tests and sphere
//! intersections are quotients of integer coordinate expressions.  They are
//! carried exactly as a numerator/denominator pair instead of a float, so
//! interval narrowing and nearest-hit comparisons are exact.

use vstd::prelude::*;

verus! {

/// Magnitude limit for the numerator and denominator of a [`Scalar`].
/// Two scalars are compared by cross-multiplying; this limit keeps those
/// products inside `i128`.
pub const SCALAR_LIMIT: i128 = 0x4000_0000_0000_0000;

/// Mathematical value of a [`Scalar`]: an unbounded rational, kept as a
/// numerator and a positive denominator.  Ghost-only.
pub struct Rat {
    pub num: int,
    pub den: int,
}

/// Well-formed rational: positive denominator.
pub open spec fn rat_wf(a: Rat) -> bool {
    a.den > 0
}

/// Rational of the integer `v`.
pub open spec fn rat_int(v: int) -> Rat {
    Rat { num: v, den: 1 }
}

/// `a <= b` as rationals (cross-multiplied; denominators positive).
pub open spec fn rle(a: Rat, b: Rat) -> bool {
    a.num * b.den <= b.num * a.den
}

/// `a < b` as rationals.
pub open spec fn rlt(a: Rat, b: Rat) -> bool {
    a.num * b.den < b.num * a.den
}

/// `a == b` as rationals (representations may differ).
pub open spec fn req(a: Rat, b: Rat) -> bool {
    a.num * b.den == b.num * a.den
}

/// The larger of two rationals, keeping `b`'s representation on ties.
pub open spec fn rmax(a: Rat, b: Rat) -> Rat {
    if rle(a, b) {
        b
    } else {
        a
    }
}

/// The smaller of two rationals, keeping `a`'s representation on ties.
pub open spec fn rmin(a: Rat, b: Rat) -> Rat {
    if rle(a, b) {
        a
    } else {
        b
    }
}

/// `<=` is transitive.
pub proof fn lemma_rle_trans(a: Rat, b: Rat, c: Rat)
    by (nonlinear_arith)
    requires
        rat_wf(a),
        rat_wf(b),
        rat_wf(c),
        rle(a, b),
        rle(b, c),
    ensures
        rle(a, c),
{
}

/// `<` composes with `<=` on the right.
pub proof fn lemma_rlt_rle_trans(a: Rat, b: Rat, c: Rat)
    by (nonlinear_arith)
    requires
        rat_wf(a),
        rat_wf(b),
        rat_wf(c),
        rlt(a, b),
        rle(b, c),
    ensures
        rlt(a, c),
{
}

/// `<=` composes with `<` on the right.
pub proof fn lemma_rle_rlt_trans(a: Rat, b: Rat, c: Rat)
    by (nonlinear_arith)
    requires
        rat_wf(a),
        rat_wf(b),
        rat_wf(c),
        rle(a, b),
        rlt(b, c),
    ensures
        rlt(a, c),
{
}

/// `<` is transitive.
pub proof fn lemma_rlt_trans(a: Rat, b: Rat, c: Rat)
    by (nonlinear_arith)
    requires
        rat_wf(a),
        rat_wf(b),
        rat_wf(c),
        rlt(a, b),
        rlt(b, c),
    ensures
        rlt(a, c),
{
}

/// A rational `max` is an upper bound of both arguments, and no more.
pub proof fn lemma_rmax_bounds(a: Rat, b: Rat)
    requires
        rat_wf(a),
        rat_wf(b),
    ensures
        rat_wf(rmax(a, b)),
        rle(a, rmax(a, b)),
        rle(b, rmax(a, b)),
        rmax(a, b) == a || rmax(a, b) == b,
{
}

/// A rational `min` is a lower bound of both arguments, and no more.
pub proof fn lemma_rmin_bounds(a: Rat, b: Rat)
    requires
        rat_wf(a),
        rat_wf(b),
    ensures
        rat_wf(rmin(a, b)),
        rle(rmin(a, b), a),
        rle(rmin(a, b), b),
        rmin(a, b) == a || rmin(a, b) == b,
{
}

/// Exact rational scalar: `num / den` with `den > 0`, both bounded by
/// [`SCALAR_LIMIT`] so that comparison cross-products fit in `i128`.
#[derive(Clone, Copy, PartialEq, Eq, Structural, Debug)]
pub struct Scalar {
    pub num: i128,
    pub den: i128,
}

impl View for Scalar {
    type V = Rat;

    open spec fn view(&self) -> Rat {
        Rat { num: self.num as int, den: self.den as int }
    }
}

impl Scalar {
    /// Representation invariant.
    pub open spec fn wf(self) -> bool {
        0 < self.den <= SCALAR_LIMIT && -SCALAR_LIMIT <= self.num <= SCALAR_LIMIT
    }

    /// Builds the scalar `num / den`, normalizing the denominator's sign.
    pub fn new(num: i128, den: i128) -> (r: Scalar)
        requires
            den != 0,
            -SCALAR_LIMIT <= num <= SCALAR_LIMIT,
            -SCALAR_LIMIT <= den <= SCALAR_LIMIT,
        ensures
            r.wf(),
            req(r@, Rat { num: num as int, den: den as int }) || req(r@, Rat {
                num: -(num as int),
                den: -(den as int),
            }),
            den > 0 ==> r.num == num && r.den == den,
            den < 0 ==> r.num == -num && r.den == -den,
    {
        if den > 0 {
            Scalar { num, den }
        } else {
            Scalar { num: -num, den: -den }
        }
    }

    /// The scalar for the integer `v`.
    pub fn from_int(v: i32) -> (r: Scalar)
        ensures
            r.wf(),
            r@ == rat_int(v as int),
    {
        Scalar { num: v as i128, den: 1 }
    }

    /// `self <= other` as rationals.
    pub fn le(&self, other: &Scalar) -> (r: bool)
        requires
            self.wf(),
            other.wf(),
        ensures
            r == rle(self@, other@),
    {
        proof {
            lemma_scalar_products_bounded(*self, *other);
        }
        self.num * other.den <= other.num * self.den
    }

    /// `self < other` as rationals.
    pub fn lt(&self, other: &Scalar) -> (r: bool)
        requires
            self.wf(),
            other.wf(),
        ensures
            r == rlt(self@, other@),
    {
        proof {
            lemma_scalar_products_bounded(*self, *other);
        }
        self.num * other.den < other.num * self.den
    }

    /// The larger scalar; ties keep `other`.
    pub fn max(self, other: Scalar) -> (r: Scalar)
        requires
            self.wf(),
            other.wf(),
        ensures
            r.wf(),
            r@ == rmax(self@, other@),
    {
        if self.le(&other) {
            other
        } else {
            self
        }
    }

    /// The smaller scalar; ties keep `self`.
    pub fn min(self, other: Scalar) -> (r: Scalar)
        requires
            self.wf(),
            other.wf(),
        ensures
            r.wf(),
            r@ == rmin(self@, other@),
    {
        if self.le(&other) {
            self
        } else {
            other
        }
    }
}

/// A point (or direction) with exact rational coordinates, as produced by
/// evaluating a ray at a rational parameter.
#[derive(Clone, Copy, PartialEq, Eq, Structural, Debug)]
pub struct Point3 {
    pub x: Scalar,
    pub y: Scalar,
    pub z: Scalar,
}

impl Point3 {
    /// All three coordinates well-formed.
    pub open spec fn wf(self) -> bool {
        self.x.wf() && self.y.wf() && self.z.wf()
    }
}

/// The cross products used to compare two well-formed scalars fit in `i128`.
proof fn lemma_scalar_products_bounded(a: Scalar, b: Scalar)
    by (nonlinear_arith)
    requires
        a.wf(),
        b.wf(),
    ensures
        i128::MIN < a.num * b.den <= SCALAR_LIMIT * SCALAR_LIMIT,
        i128::MIN < b.num * a.den <= SCALAR_LIMIT * SCALAR_LIMIT,
        SCALAR_LIMIT * SCALAR_LIMIT < i128::MAX,
{
}

} // verus!
