//! The four operations and the remainder.

use crate::number::model::{
    bit_length, difference, from_whole, is_zero, negated, product, quotient, remainder, rounded,
    rounded_magnitude, sum, unit, Double,
};
use crate::number::rounding::{
    lemma_bit_length_bounds, lemma_pow2_monotone, lemma_rounded_representable, lemma_scaled_quotient,
    scaled_floor, scaled_inexact,
};
use crate::number::{digits, lemma_pow2_wide, power_of_two, round_pack, Number};
use vstd::arithmetic::power2::{lemma_pow2_adds, lemma_pow2_pos, pow2};
use vstd::prelude::*;

verus! {

/// Zero rounds to zero.
pub proof fn lemma_rounded_zero(negative: bool, den: nat)
    requires
        den > 0,
    ensures
        rounded(negative, 0, den) == (Double::Finite { negative, magnitude: 0 }),
{
    lemma_pow2_wide();
    assert(0nat / den == 0) by (nonlinear_arith)
        requires
            den > 0,
    ;
    assert(bit_length(0) == 0);
    assert(den * pow2(0) == den) by (nonlinear_arith)
        requires
            pow2(0) == 1,
    ;
    assert(0nat % den == 0) by (nonlinear_arith)
        requires
            den > 0,
    ;
    lemma_pow2_pos(2098);
    assert(crate::number::model::ulp_exponent(0, den) == 0);
    assert(crate::number::model::nearest_even(0, den) == 0);
    assert(rounded_magnitude(0, den) == 0nat * pow2(0));
    assert(0nat * pow2(0) == 0) by (nonlinear_arith);
}

/// A magnitude with a significand of at most 53 digits and an exponent of at
/// most 2045 rounds to itself.
pub proof fn lemma_rounded_exact(negative: bool, significand: nat, exponent: nat)
    requires
        significand < pow2(53),
        exponent <= 2045,
    ensures
        rounded(negative, significand * pow2(exponent), 1) == (Double::Finite {
            negative,
            magnitude: significand * pow2(exponent),
        }),
{
    lemma_rounded_representable(significand, exponent);
    lemma_pow2_adds(53, 2045);
    lemma_pow2_monotone(exponent, 2045);
    assert(significand * pow2(exponent) < pow2(53) * pow2(2045)) by (nonlinear_arith)
        requires
            significand < pow2(53),
            0 < pow2(exponent) <= pow2(2045),
    ;
}

impl Number {
    /// Whether the number is a zero of either sign.
    pub fn is_zero(&self) -> (r: bool)
        ensures
            r == is_zero(self@),
    {
        proof {
            lemma_pow2_wide();
            if self.bits % 0x8000_0000_0000_0000 != 0 {
                let rest = self.bits % 0x8000_0000_0000_0000;
                let exponent = rest / 0x10_0000_0000_0000;
                let fraction = rest % 0x10_0000_0000_0000;
                if exponent != 0 && exponent != 2047 {
                    lemma_pow2_pos((exponent - 1) as nat);
                    assert((0x10_0000_0000_0000 + fraction) * pow2((exponent - 1) as nat) > 0)
                        by (nonlinear_arith)
                        requires
                            fraction >= 0,
                            pow2((exponent - 1) as nat) > 0,
                    ;
                }
            }
        }
        self.bits % crate::number::SIGN == 0
    }

    /// The number with the opposite sign.
    pub fn negate(self) -> (r: Number)
        ensures
            r@ == negated(self@),
    {
        if self.is_nan() {
            return Number::nan();
        }
        if self.bits >= crate::number::SIGN {
            Number { bits: self.bits - crate::number::SIGN }
        } else {
            Number { bits: self.bits + crate::number::SIGN }
        }
    }

    /// The product of two numbers.
    pub fn times(self, other: Number) -> (r: Number)
        ensures
            r@ == product(self@, other@),
    {
        if self.is_nan() || other.is_nan() {
            return Number::nan();
        }
        let negative = self.sign() != other.sign();
        if self.is_infinite() || other.is_infinite() {
            if self.is_zero() || other.is_zero() {
                return Number::nan();
            }
            return Number::infinity(negative);
        }
        let (na, sa, ka) = self.parts();
        let (nb, sb, kb) = other.parts();
        let ghost ma = sa as nat * pow2(ka as nat);
        let ghost mb = sb as nat * pow2(kb as nat);
        proof {
            lemma_pow2_wide();
            assert(sa as nat * sb as nat <= 0x20_0000_0000_0000 * 0x20_0000_0000_0000) by (nonlinear_arith)
                requires
                    sa < 0x20_0000_0000_0000,
                    sb < 0x20_0000_0000_0000,
            ;
            lemma_pow2_adds(ka as nat, kb as nat);
            assert(ma * mb == (sa as nat * sb as nat) * pow2((ka + kb) as nat)) by (nonlinear_arith)
                requires
                    ma == sa as nat * pow2(ka as nat),
                    mb == sb as nat * pow2(kb as nat),
                    pow2((ka + kb) as nat) == pow2(ka as nat) * pow2(kb as nat),
            ;
        }
        let p: u128 = sa as u128 * sb as u128;
        if p == 0 {
            proof {
                assert(ma * mb == 0) by (nonlinear_arith)
                    requires
                        ma * mb == p * pow2((ka + kb) as nat),
                        p == 0,
                ;
                lemma_pow2_pos(1074);
                lemma_rounded_zero(negative, unit());
            }
            return Number::zero(negative);
        }
        let e: i64 = ka as i64 + kb as i64 - 1074;
        proof {
            lemma_scaled_quotient(p as nat, 1, (ka + kb) as nat, 1074, 0, e as int);
            assert(1 * pow2(1074) == unit());
            assert(p as nat * pow2(0) == p) by (nonlinear_arith)
                requires
                    pow2(0) == 1,
            ;
            assert((p as nat) / 1 == p);
            assert((p as nat) % 1 == 0);
        }
        round_pack(negative, p, e, false, Ghost(ma * mb), Ghost(unit()))
    }

    /// The quotient of two numbers.
    pub fn over(self, other: Number) -> (r: Number)
        ensures
            r@ == quotient(self@, other@),
    {
        if self.is_nan() || other.is_nan() {
            return Number::nan();
        }
        let negative = self.sign() != other.sign();
        if self.is_infinite() {
            if other.is_infinite() {
                return Number::nan();
            }
            return Number::infinity(negative);
        }
        if other.is_infinite() {
            return Number::zero(negative);
        }
        if other.is_zero() {
            if self.is_zero() {
                return Number::nan();
            }
            return Number::infinity(negative);
        }
        let (na, sa, ka) = self.parts();
        let (nb, sb, kb) = other.parts();
        let ghost ma = sa as nat * pow2(ka as nat);
        let ghost mb = sb as nat * pow2(kb as nat);
        proof {
            lemma_pow2_wide();
            lemma_pow2_pos(kb as nat);
            lemma_pow2_pos(ka as nat);
            if sb == 0 {
                assert(mb == 0) by (nonlinear_arith)
                    requires
                        mb == sb as nat * pow2(kb as nat),
                        sb == 0,
                ;
            }
        }
        if sa == 0 {
            proof {
                assert(ma == 0) by (nonlinear_arith)
                    requires
                        ma == sa as nat * pow2(ka as nat),
                        sa == 0,
                ;
                assert(ma * unit() == 0) by (nonlinear_arith)
                    requires
                        ma == 0,
                ;
                assert(mb > 0) by (nonlinear_arith)
                    requires
                        mb == sb as nat * pow2(kb as nat),
                        sb > 0,
                        pow2(kb as nat) > 0,
                ;
                lemma_rounded_zero(negative, mb);
            }
            return Number::zero(negative);
        }
        let la: u32 = digits(sa as u128);
        let lb: u32 = digits(sb as u128);
        proof {
            lemma_bit_length_bounds(sa as nat);
            lemma_bit_length_bounds(sb as nat);
            crate::number::rounding::lemma_bit_length_below(sa as nat, 53);
            crate::number::rounding::lemma_bit_length_below(sb as nat, 53);
        }
        let g: u32 = 56 + lb - la;
        let scale = power_of_two(g);
        proof {
            lemma_pow2_adds(la as nat, g as nat);
            lemma_pow2_adds((la - 1) as nat, g as nat);
            lemma_pow2_adds(55, lb as nat);
            lemma_pow2_monotone((56 + lb) as nat, 109);
            lemma_pow2_monotone(109, 120);
            assert(sa as nat * scale < pow2(la as nat) * scale) by (nonlinear_arith)
                requires
                    sa < pow2(la as nat),
                    scale > 0,
            ;
            assert(sa as nat * scale >= pow2((la - 1) as nat) * scale) by (nonlinear_arith)
                requires
                    sa >= pow2((la - 1) as nat),
                    scale > 0,
            ;
        }
        let x: u128 = sa as u128 * scale;
        let q: u128 = x / (sb as u128);
        let left: u128 = x % (sb as u128);
        let e: i64 = ka as i64 - kb as i64 + 1074 - g as i64;
        proof {
            // the quotient has at least 56 digits
            lemma_pow2_pos(55);
            assert(x >= pow2(55) * sb) by (nonlinear_arith)
                requires
                    x >= pow2(55) * pow2(lb as nat),
                    sb < pow2(lb as nat),
                    pow2(55) > 0,
            ;
            vstd::arithmetic::div_mod::lemma_div_is_ordered((pow2(55) * sb) as int, x as int, sb as int);
            vstd::arithmetic::div_mod::lemma_div_multiples_vanish(pow2(55) as int, sb as int);
            assert(q >= pow2(55));
            lemma_pow2_monotone(53, 55);
            vstd::arithmetic::div_mod::lemma_div_nonincreasing(x as int, sb as int);
            lemma_pow2_adds(ka as nat, 1074);
            assert(ma * unit() == sa as nat * pow2((ka + 1074) as nat)) by (nonlinear_arith)
                requires
                    ma == sa as nat * pow2(ka as nat),
                    pow2((ka + 1074) as nat) == pow2(ka as nat) * unit(),
            ;
            lemma_scaled_quotient(sa as nat, sb as nat, (ka + 1074) as nat, kb as nat, g as nat, e as int);
        }
        round_pack(negative, q, e, left != 0, Ghost(ma * unit()), Ghost(mb))
    }

    /// A whole number as a number of the format, rounded where it has more
    /// than 53 digits.
    pub fn from_i64(n: i64) -> (r: Number)
        ensures
            r@ == from_whole(n as int),
    {
        if n == 0 {
            return Number::zero(false);
        }
        let size: u128 = if n < 0 { (-(n as i128)) as u128 } else { n as u128 };
        proof {
            lemma_pow2_wide();
            lemma_pow2_monotone(64, 120);
            lemma_scaled_quotient(size as nat, 1, 1074, 0, 0, 1074);
            assert(size as nat * pow2(0) == size) by (nonlinear_arith)
                requires
                    pow2(0) == 1,
            ;
            assert(1 * pow2(0) == 1);
            assert((size as nat) / 1 == size);
            assert((size as nat) % 1 == 0);
        }
        round_pack(n < 0, size, 1074, false, Ghost(size as nat * unit()), Ghost(1))
    }

    /// A size as a number of the format, rounded where it has more than 53
    /// digits.
    pub fn from_usize(n: usize) -> (r: Number)
        ensures
            r@ == from_whole(n as int),
    {
        if n == 0 {
            return Number::zero(false);
        }
        let size: u128 = n as u128;
        proof {
            lemma_pow2_wide();
            lemma_pow2_monotone(64, 120);
            lemma_scaled_quotient(size as nat, 1, 1074, 0, 0, 1074);
            assert(size as nat * pow2(0) == size) by (nonlinear_arith)
                requires
                    pow2(0) == 1,
            ;
            assert(1 * pow2(0) == 1);
            assert((size as nat) / 1 == size);
            assert((size as nat) % 1 == 0);
        }
        round_pack(false, size, 1074, false, Ghost(size as nat * unit()), Ghost(1))
    }
}

/// The sum of two finite numbers that are not zero, the first with no
/// smaller an exponent than the second. `n1`, `s1`, `k1` are the sign, the
/// significand and the exponent of the first and `n2`, `s2`, `k2` those of the
/// second.
fn add_ordered(n1: bool, s1: u64, k1: u64, n2: bool, s2: u64, k2: u64) -> (r: Number)
    requires
        0 < s1 < 0x20_0000_0000_0000,
        0 < s2 < 0x20_0000_0000_0000,
        k2 <= k1 <= 2045,
        k1 >= 1 ==> s1 >= 0x10_0000_0000_0000,
    ensures
        r@ == sum(
            Double::Finite { negative: n1, magnitude: s1 as nat * pow2(k1 as nat) },
            Double::Finite { negative: n2, magnitude: s2 as nat * pow2(k2 as nat) },
        ),
{
    let ghost m1 = s1 as nat * pow2(k1 as nat);
    let ghost m2 = s2 as nat * pow2(k2 as nat);
    let ghost unit_here = pow2(k2 as nat);
    let d: u64 = k1 - k2;
    proof {
        lemma_pow2_wide();
        lemma_pow2_pos(k2 as nat);
        lemma_pow2_adds(d as nat, k2 as nat);
        assert(m2 > 0) by (nonlinear_arith)
            requires
                m2 == s2 as nat * unit_here,
                s2 > 0,
                unit_here > 0,
        ;
    }
    if d <= 64 {
        let scale = power_of_two(d as u32);
        proof {
            lemma_pow2_monotone(d as nat, 64);
            assert(s1 as nat * scale < 0x20_0000_0000_0000 * 0x1_0000_0000_0000_0000) by (nonlinear_arith)
                requires
                    0 < s1 < 0x20_0000_0000_0000,
                    0 < scale <= 0x1_0000_0000_0000_0000,
            ;
            assert(s1 as nat * scale > 0) by (nonlinear_arith)
                requires
                    0 < s1,
                    0 < scale,
            ;
        }
        let x: u128 = s1 as u128 * scale;
        proof {
            assert(m1 == x as nat * unit_here) by (nonlinear_arith)
                requires
                    m1 == s1 as nat * pow2(k1 as nat),
                    pow2(k1 as nat) == scale * unit_here,
                    x == s1 as nat * scale,
            ;
        }
        if n1 == n2 {
            let n: u128 = x + s2 as u128;
            proof {
                assert(m1 + m2 == n as nat * unit_here) by (nonlinear_arith)
                    requires
                        m1 == x as nat * unit_here,
                        m2 == s2 as nat * unit_here,
                        n == x + s2,
                ;
                lemma_exact_quotient(n as nat, k2 as nat);
            }
            round_pack(n1, n, k2 as i64, false, Ghost(n as nat * unit_here), Ghost(1))
        } else if x > s2 as u128 {
            let n: u128 = x - s2 as u128;
            proof {
                assert(m1 - m2 == n as nat * unit_here) by (nonlinear_arith)
                    requires
                        m1 == x as nat * unit_here,
                        m2 == s2 as nat * unit_here,
                        n == x - s2,
                ;
                assert(n as nat * unit_here > 0) by (nonlinear_arith)
                    requires
                        n > 0,
                        unit_here > 0,
                ;
                lemma_exact_quotient(n as nat, k2 as nat);
            }
            round_pack(n1, n, k2 as i64, false, Ghost(n as nat * unit_here), Ghost(1))
        } else if x < s2 as u128 {
            let n: u128 = s2 as u128 - x;
            proof {
                assert(m2 - m1 == n as nat * unit_here) by (nonlinear_arith)
                    requires
                        m1 == x as nat * unit_here,
                        m2 == s2 as nat * unit_here,
                        n == s2 - x,
                ;
                assert(n as nat * unit_here > 0) by (nonlinear_arith)
                    requires
                        n > 0,
                        unit_here > 0,
                ;
                lemma_exact_quotient(n as nat, k2 as nat);
            }
            round_pack(n2, n, k2 as i64, false, Ghost(n as nat * unit_here), Ghost(1))
        } else {
            Number::zero(false)
        }
    } else {
        // the second number is less than a quarter of the last place of the first
        let ghost place = pow2((k1 - 2) as nat);
        proof {
            lemma_pow2_pos((k1 - 2) as nat);
            lemma_pow2_adds(2, (k1 - 2) as nat);
            lemma_pow2_adds(53, k2 as nat);
            lemma_pow2_monotone((53 + k2) as nat, (k1 - 2) as nat);
            assert(pow2(2) == 4) by {
                vstd::arithmetic::power2::lemma2_to64();
            }
            assert(m1 == (4 * s1) * place) by (nonlinear_arith)
                requires
                    m1 == s1 as nat * pow2(k1 as nat),
                    pow2(k1 as nat) == 4 * place,
            ;
            assert(m2 < pow2(53) * unit_here) by (nonlinear_arith)
                requires
                    m2 == s2 as nat * unit_here,
                    s2 < pow2(53),
                    unit_here > 0,
            ;
            assert(m2 < place);
            assert(place * 1 == place);
            lemma_pow2_monotone(53, 120);
        }
        if n1 == n2 {
            let q: u128 = 4 * (s1 as u128);
            proof {
                let v = m1 + m2;
                assert(v == q as nat * place + m2);
                assert(1 * place > 0);
                vstd::arithmetic::div_mod::lemma_fundamental_div_mod_converse(
                    v as int,
                    place as int,
                    q as int,
                    m2 as int,
                );
                assert(1 * place == place);
                assert(scaled_floor(v, 1, (k1 - 2) as int) == q);
                assert(scaled_inexact(v, 1, (k1 - 2) as int));
            }
            round_pack(n1, q, (k1 - 2) as i64, true, Ghost(m1 + m2), Ghost(1))
        } else {
            let q: u128 = 4 * (s1 as u128) - 1;
            proof {
                let v = (m1 - m2) as nat;
                assert(m1 >= place) by (nonlinear_arith)
                    requires
                        m1 == (4 * s1) * place,
                        s1 > 0,
                        place > 0,
                ;
                assert(v == q as nat * place + (place - m2)) by (nonlinear_arith)
                    requires
                        v == m1 - m2,
                        m1 == (4 * s1) * place,
                        q == 4 * s1 - 1,
                ;
                vstd::arithmetic::div_mod::lemma_fundamental_div_mod_converse(
                    v as int,
                    place as int,
                    q as int,
                    (place - m2) as int,
                );
                assert(1 * place == place);
                assert(scaled_floor(v, 1, (k1 - 2) as int) == q);
                assert(scaled_inexact(v, 1, (k1 - 2) as int));
            }
            round_pack(n1, q, (k1 - 2) as i64, true, Ghost((m1 - m2) as nat), Ghost(1))
        }
    }
}

/// A whole number of units at the exponent `k` is its own truncated quotient,
/// with nothing cut off.
proof fn lemma_exact_quotient(n: nat, k: nat)
    ensures
        scaled_floor(n * pow2(k), 1, k as int) == n,
        !scaled_inexact(n * pow2(k), 1, k as int),
{
    lemma_pow2_wide();
    lemma_scaled_quotient(n, 1, k, 0, 0, k as int);
    assert(1 * pow2(0) == 1);
    assert(n * pow2(0) == n) by (nonlinear_arith)
        requires
            pow2(0) == 1,
    ;
    assert(n / 1 == n);
    assert(n % 1 == 0);
}

impl Number {
    /// The sum of two numbers.
    pub fn plus(self, other: Number) -> (r: Number)
        ensures
            r@ == sum(self@, other@),
    {
        if self.is_nan() || other.is_nan() {
            return Number::nan();
        }
        if self.is_infinite() {
            if other.is_infinite() && self.sign() != other.sign() {
                return Number::nan();
            }
            return self;
        }
        if other.is_infinite() {
            return other;
        }
        let (na, sa, ka) = self.parts();
        let (nb, sb, kb) = other.parts();
        proof {
            lemma_pow2_wide();
            lemma_pow2_pos(ka as nat);
            lemma_pow2_pos(kb as nat);
            assert(sa == 0 ==> sa as nat * pow2(ka as nat) == 0) by (nonlinear_arith);
            assert(sb == 0 ==> sb as nat * pow2(kb as nat) == 0) by (nonlinear_arith);
            assert(sa > 0 ==> sa as nat * pow2(ka as nat) > 0) by (nonlinear_arith)
                requires
                    pow2(ka as nat) > 0,
            ;
            assert(sb > 0 ==> sb as nat * pow2(kb as nat) > 0) by (nonlinear_arith)
                requires
                    pow2(kb as nat) > 0,
            ;
        }
        if sa == 0 && sb == 0 {
            return Number::zero(na && nb);
        }
        if sb == 0 {
            proof {
                lemma_rounded_exact(na, sa as nat, ka as nat);
            }
            return self;
        }
        if sa == 0 {
            proof {
                lemma_rounded_exact(nb, sb as nat, kb as nat);
            }
            return other;
        }
        if ka >= kb {
            add_ordered(na, sa, ka, nb, sb, kb)
        } else {
            add_ordered(nb, sb, kb, na, sa, ka)
        }
    }

    /// The difference of two numbers.
    pub fn minus(self, other: Number) -> (r: Number)
        ensures
            r@ == difference(self@, other@),
    {
        self.plus(other.negate())
    }

    /// The remainder of the division of this number by `other` with a
    /// truncated quotient.
    pub fn modulo(self, other: Number) -> (r: Number)
        ensures
            r@ == remainder(self@, other@),
    {
        if self.is_nan() || other.is_nan() {
            return Number::nan();
        }
        if self.is_infinite() {
            return Number::nan();
        }
        if other.is_infinite() {
            return self;
        }
        if other.is_zero() {
            return Number::nan();
        }
        let (na, sa, ka) = self.parts();
        let (nb, sb, kb) = other.parts();
        let ghost ma = sa as nat * pow2(ka as nat);
        let ghost mb = sb as nat * pow2(kb as nat);
        let ghost unit_here = pow2(kb as nat);
        proof {
            lemma_pow2_wide();
            lemma_pow2_pos(kb as nat);
            lemma_pow2_pos(ka as nat);
            assert(sb == 0 ==> mb == 0) by (nonlinear_arith)
                requires
                    mb == sb as nat * pow2(kb as nat),
            ;
            assert(mb >= sb as nat * 1) by (nonlinear_arith)
                requires
                    mb == sb as nat * unit_here,
                    unit_here >= 1,
            ;
        }
        if ka < kb {
            proof {
                // the dividend is the smaller of the two
                lemma_pow2_adds(53, ka as nat);
                lemma_pow2_adds(52, kb as nat);
                lemma_pow2_monotone((53 + ka) as nat, (52 + kb) as nat);
                assert(ma < pow2(53) * pow2(ka as nat)) by (nonlinear_arith)
                    requires
                        ma == sa as nat * pow2(ka as nat),
                        sa < pow2(53),
                        pow2(ka as nat) > 0,
                ;
                assert(mb >= pow2(52) * unit_here) by (nonlinear_arith)
                    requires
                        mb == sb as nat * unit_here,
                        sb >= pow2(52),
                        unit_here > 0,
                ;
                vstd::arithmetic::div_mod::lemma_small_mod(ma, mb);
            }
            return self;
        }
        let d: u64 = ka - kb;
        let mut r: u64 = sa % sb;
        let mut i: u64 = 0;
        while i < d
            invariant
                i <= d,
                0 < sb < 0x20_0000_0000_0000,
                r == (sa as nat * pow2(i as nat)) % (sb as nat),
                r < sb,
            decreases d - i,
        {
            proof {
                let x = sa as nat * pow2(i as nat);
                crate::number::rounding::lemma_pow2_double((i + 1) as nat);
                vstd::arithmetic::div_mod::lemma_mul_mod_noop_right(2, x as int, sb as int);
                assert(2 * x == sa as nat * pow2((i + 1) as nat)) by (nonlinear_arith)
                    requires
                        x == sa as nat * pow2(i as nat),
                        pow2((i + 1) as nat) == 2 * pow2(i as nat),
                ;
            }
            r = ((r as u128 * 2) % (sb as u128)) as u64;
            i += 1;
        }
        proof {
            let x = sa as nat * pow2(d as nat);
            lemma_pow2_adds(d as nat, kb as nat);
            assert(ma == unit_here * x) by (nonlinear_arith)
                requires
                    ma == sa as nat * pow2(ka as nat),
                    pow2(ka as nat) == pow2(d as nat) * unit_here,
                    x == sa as nat * pow2(d as nat),
            ;
            assert(mb == unit_here * sb as nat) by (nonlinear_arith)
                requires
                    mb == sb as nat * unit_here,
            ;
            vstd::arithmetic::div_mod::lemma_truncate_middle(x as int, unit_here as int, sb as int);
            assert(ma % mb == unit_here * r as nat);
            assert(unit_here * r as nat == r as nat * unit_here) by (nonlinear_arith);
        }
        if r == 0 {
            proof {
                assert(0nat * unit_here == 0) by (nonlinear_arith);
            }
            return Number::zero(na);
        }
        proof {
            lemma_exact_quotient(r as nat, kb as nat);
            lemma_rounded_exact(na, r as nat, kb as nat);
            lemma_pow2_monotone(53, 120);
        }
        round_pack(na, r as u128, kb as i64, false, Ghost(r as nat * unit_here), Ghost(1))
    }
}

} // verus!
