//! What comparing, limiting and rounding do to numbers.
use crate::scalar::{Scalar, Vec3};
use vstd::arithmetic::div_mod::*;
use vstd::arithmetic::power2::*;
use vstd::prelude::*;

verus! {

/// Numbers are in order: of two that are not equal exactly one is below the other, and a
/// NaN is neither below anything, above anything nor equal to anything.
pub proof fn numbers_are_in_order(a: Scalar, b: Scalar, c: Scalar)
    ensures
        !a.below(a),
        !(a.below(b) && b.below(a)),
        !(a.below(b) && a.equal_to(b)),
        !a.nan() && !b.nan() ==> a.below(b) || b.below(a) || a.equal_to(b),
        a.below(b) && b.below(c) ==> a.below(c),
        a.nan() ==> !a.below(b) && !b.below(a) && !a.equal_to(b),
{
}

/// The larger of two numbers is one of them, and neither is above it; the smaller one is
/// one of them, and neither is below it.
pub proof fn larger_and_smaller_bound_both(a: Scalar, b: Scalar)
    requires
        !a.nan(),
        !b.nan(),
    ensures
        a.larger(b) == a || a.larger(b) == b,
        a.scaled() <= a.larger(b).scaled() && b.scaled() <= a.larger(b).scaled(),
        a.smaller(b) == a || a.smaller(b) == b,
        a.smaller(b).scaled() <= a.scaled() && a.smaller(b).scaled() <= b.scaled(),
{
}

/// A NaN gives way to a number.
pub proof fn a_nan_gives_way(a: Scalar, b: Scalar)
    requires
        a.nan(),
        !b.nan(),
    ensures
        a.larger(b) == b && b.larger(a) == b,
        a.smaller(b) == b && b.smaller(a) == b,
{
}

/// A limited number lies within its limits, and is itself where it lay there before.
pub proof fn a_limited_number_keeps_within(number: Scalar, lo: Scalar, hi: Scalar)
    requires
        !number.nan(),
        !lo.nan(),
        !hi.nan(),
        lo.scaled() <= hi.scaled(),
    ensures
        lo.scaled() <= number.limited(lo, hi).scaled() <= hi.scaled(),
        lo.scaled() <= number.scaled() <= hi.scaled() ==> number.limited(lo, hi) == number,
        number.scaled() < lo.scaled() ==> number.limited(lo, hi) == lo,
        number.scaled() > hi.scaled() ==> number.limited(lo, hi) == hi,
{
}

/// Rounding towards zero gives the whole number at or just below a number that is not
/// below zero, as long as it fits.
pub proof fn truncation_is_within_one(number: Scalar)
    requires
        !number.nan(),
        0 <= number.scaled() < 0x1_0000_0000 * pow2(149),
    ensures
        number.truncated() * pow2(149) <= number.scaled() < (number.truncated() + 1) * pow2(149),
{
    let unit = pow2(149) as int;
    lemma_pow2_pos(149);
    let p = number.scaled();
    lemma_fundamental_div_mod(p, unit);
    let (q, r) = (p / unit, p % unit);
    assert(q * unit <= p < (q + 1) * unit && q < 0x1_0000_0000) by (nonlinear_arith)
        requires
            p == unit * q + r,
            0 <= r < unit,
            p < 0x1_0000_0000 * unit,
    ;
}

/// Rounding down gives the whole number at or just below a number, as long as it fits.
pub proof fn rounding_down_is_within_one(number: Scalar)
    requires
        !number.nan(),
        -0x8000_0000 * pow2(149) <= number.scaled() < 0x8000_0000 * pow2(149),
    ensures
        number.floored() * pow2(149) <= number.scaled() < (number.floored() + 1) * pow2(149),
{
    let unit = pow2(149) as int;
    lemma_pow2_pos(149);
    let p = number.scaled();
    lemma_fundamental_div_mod(p, unit);
    let (q, r) = (p / unit, p % unit);
    assert(q * unit <= p < (q + 1) * unit && -0x8000_0000 <= q < 0x8000_0000)
        by (nonlinear_arith)
        requires
            p == unit * q + r,
            0 <= r < unit,
            -0x8000_0000 * unit <= p < 0x8000_0000 * unit,
    ;
}

/// The corners of a joint box lie outside both corners along every axis.
pub proof fn joint_corners_lie_outside(a: Vec3, b: Vec3)
    requires
        !a.x.nan() && !a.y.nan() && !a.z.nan(),
        !b.x.nan() && !b.y.nan() && !b.z.nan(),
    ensures
        ({
            let (low, high) = (a.lower_corner(b), a.upper_corner(b));
            &&& low.x.scaled() <= a.x.scaled() && low.x.scaled() <= b.x.scaled()
            &&& low.y.scaled() <= a.y.scaled() && low.y.scaled() <= b.y.scaled()
            &&& low.z.scaled() <= a.z.scaled() && low.z.scaled() <= b.z.scaled()
            &&& high.x.scaled() >= a.x.scaled() && high.x.scaled() >= b.x.scaled()
            &&& high.y.scaled() >= a.y.scaled() && high.y.scaled() >= b.y.scaled()
            &&& high.z.scaled() >= a.z.scaled() && high.z.scaled() >= b.z.scaled()
        }),
{
}

} // verus!
