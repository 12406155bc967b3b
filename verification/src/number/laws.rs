//! What holds of the arithmetic on whole numbers: below 2^53 every whole
//! number is a number of the format, and sums, differences and products that
//! stay below 2^53 are exact.

use crate::number::arith::{lemma_rounded_exact, lemma_rounded_zero};
use crate::number::model::{
    difference, from_whole, negated, product, rounded, rounded_magnitude, signed_units, sum, ulp_exponent,
    unit, Double,
};
use crate::number::rounding::lemma_nearest_even_scaled;
use vstd::arithmetic::power2::{lemma_pow2_pos, pow2};
use vstd::prelude::*;

verus! {

/// The size of a whole number.
pub open spec fn size_of(n: int) -> nat {
    if n < 0 {
        (-n) as nat
    } else {
        n as nat
    }
}

/// The finite number that stands for the whole number `n` exactly.
pub open spec fn whole(n: int) -> Double {
    Double::Finite { negative: n < 0, magnitude: size_of(n) * unit() }
}

/// A whole number below 2^53 in size is a number of the format.
pub proof fn lemma_from_whole_exact(n: int)
    requires
        size_of(n) < pow2(53),
    ensures
        from_whole(n) == whole(n),
{
    if n == 0 {
        assert(0nat * unit() == 0) by (nonlinear_arith);
    } else {
        lemma_rounded_exact(n < 0, size_of(n), 1074);
        assert((-n) * unit() == size_of(n) * unit() || n > 0);
        assert(n * unit() == size_of(n) * unit() || n < 0);
    }
}

/// Rounding does not change where numerator and denominator are multiplied
/// by the same positive number.
pub proof fn lemma_rounded_scaled(negative: bool, num: nat, den: nat, c: nat)
    requires
        den > 0,
        c > 0,
    ensures
        rounded(negative, num * c, den * c) == rounded(negative, num, den),
{
    lemma_nearest_even_scaled(num, den, c);
    let k = ulp_exponent(num, den);
    assert(ulp_exponent(num * c, den * c) == k);
    lemma_pow2_pos(k);
    assert(den * pow2(k) > 0) by (nonlinear_arith)
        requires
            den > 0,
            pow2(k) > 0,
    ;
    lemma_nearest_even_scaled(num, den * pow2(k), c);
    assert((den * c) * pow2(k) == (den * pow2(k)) * c) by (nonlinear_arith);
    assert(rounded_magnitude(num * c, den * c) == rounded_magnitude(num, den));
}

/// A whole number times the unit, as a sign and a magnitude.
proof fn lemma_signed_whole(n: int, u: nat)
    ensures
        signed_units(n < 0, size_of(n) * u) == n * u,
{
    if n < 0 {
        assert(-(((-n) * u) as int) == n * u) by (nonlinear_arith);
        assert(((-n) as nat) * u == (-n) * u);
    } else {
        assert((n as nat) * u == n * u);
    }
}

/// The sum of two whole numbers is exact where it is below 2^53 in size.
pub proof fn lemma_sum_of_wholes(a: int, b: int)
    requires
        size_of(a + b) < pow2(53),
    ensures
        sum(whole(a), whole(b)) == whole(a + b),
{
    let u = unit();
    lemma_pow2_pos(1074);
    let exact = signed_units(a < 0, size_of(a) * u) + signed_units(b < 0, size_of(b) * u);
    lemma_signed_whole(a, u);
    lemma_signed_whole(b, u);
    assert(exact == (a + b) * u) by (nonlinear_arith)
        requires
            exact == signed_units(a < 0, size_of(a) * u) + signed_units(b < 0, size_of(b) * u),
            signed_units(a < 0, size_of(a) * u) == a * u,
            signed_units(b < 0, size_of(b) * u) == b * u,
    ;
    if a + b == 0 {
        assert(exact == 0) by (nonlinear_arith)
            requires
                exact == (a + b) * u,
                a + b == 0,
        ;
        assert(0nat * u == 0) by (nonlinear_arith);
    } else {
        lemma_rounded_exact(a + b < 0, size_of(a + b), 1074);
        if a + b < 0 {
            assert(exact < 0 && -exact == size_of(a + b) * u) by (nonlinear_arith)
                requires
                    exact == (a + b) * u,
                    a + b < 0,
                    size_of(a + b) == -(a + b),
                    u > 0,
            ;
        } else {
            assert(exact > 0 && exact == size_of(a + b) * u) by (nonlinear_arith)
                requires
                    exact == (a + b) * u,
                    a + b > 0,
                    size_of(a + b) == a + b,
                    u > 0,
            ;
        }
    }
}

/// The difference of two whole numbers is exact where it is below 2^53 in
/// size.
pub proof fn lemma_difference_of_wholes(a: int, b: int)
    requires
        size_of(a - b) < pow2(53),
        b != 0,
    ensures
        difference(whole(a), whole(b)) == whole(a - b),
{
    assert(negated(whole(b)) == whole(-b));
    lemma_sum_of_wholes(a, -b);
}

/// The product of two whole numbers, neither of them zero, is exact where it
/// is below 2^53 in size.
pub proof fn lemma_product_of_wholes(a: int, b: int)
    requires
        size_of(a * b) < pow2(53),
        a != 0,
        b != 0,
    ensures
        product(whole(a), whole(b)) == whole(a * b),
{
    let u = unit();
    lemma_pow2_pos(1074);
    let sa = size_of(a);
    let sb = size_of(b);
    assert(size_of(a * b) == sa * sb) by (nonlinear_arith)
        requires
            sa == size_of(a),
            sb == size_of(b),
            a != 0,
            b != 0,
    ;
    assert((a * b < 0) == ((a < 0) != (b < 0))) by (nonlinear_arith)
        requires
            a != 0,
            b != 0,
    ;
    assert((sa * u) * (sb * u) == ((sa * sb) * u) * u) by (nonlinear_arith);
    assert(u == 1 * u);
    lemma_rounded_scaled(a * b < 0, (sa * sb) * u, 1, u);
    lemma_rounded_exact(a * b < 0, sa * sb, 1074);
}

} // verus!
