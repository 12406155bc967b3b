//! From numbers to whole numbers, and comparisons with zero.

use crate::number::model::{below_zero, rounded_away, truncated, unit, Double};
use crate::number::rounding::{lemma_nearest_even_scaled, lemma_pow2_double, lemma_pow2_monotone};
use crate::number::{lemma_pow2_wide, power_of_two, Number};
use vstd::arithmetic::power2::{lemma_pow2_adds, lemma_pow2_pos, pow2};
use vstd::prelude::*;

verus! {

/// The whole part of a magnitude, from its significand and exponent.
proof fn lemma_whole_part(significand: nat, exponent: nat)
    ensures
        exponent >= 1074 ==> (significand * pow2(exponent)) / unit() == significand * pow2(
            (exponent - 1074) as nat,
        ),
        exponent < 1074 ==> (significand * pow2(exponent)) / unit() == significand / pow2(
            (1074 - exponent) as nat,
        ),
{
    let m = significand * pow2(exponent);
    lemma_pow2_pos(1074);
    lemma_pow2_pos(exponent);
    if exponent >= 1074 {
        let up = pow2((exponent - 1074) as nat);
        lemma_pow2_adds((exponent - 1074) as nat, 1074);
        assert(m == (significand * up) * unit()) by (nonlinear_arith)
            requires
                m == significand * pow2(exponent),
                pow2(exponent) == up * unit(),
        ;
        vstd::arithmetic::div_mod::lemma_div_multiples_vanish((significand * up) as int, unit() as int);
    } else {
        let down = pow2((1074 - exponent) as nat);
        lemma_pow2_pos((1074 - exponent) as nat);
        lemma_pow2_adds((1074 - exponent) as nat, exponent);
        assert(unit() == down * pow2(exponent));
        lemma_nearest_even_scaled(significand, down, pow2(exponent));
    }
}

/// The magnitude rounded to a whole number, half-way cases upward, from its
/// significand and exponent.
proof fn lemma_rounded_part(significand: nat, exponent: nat)
    ensures
        exponent >= 1074 ==> (2 * (significand * pow2(exponent)) + unit()) / (2 * unit()) == significand
            * pow2((exponent - 1074) as nat),
        exponent < 1074 ==> (2 * (significand * pow2(exponent)) + unit()) / (2 * unit()) == (significand
            + pow2((1073 - exponent) as nat)) / pow2((1074 - exponent) as nat),
{
    let m = significand * pow2(exponent);
    let u = unit();
    lemma_pow2_pos(1074);
    lemma_pow2_pos(exponent);
    if exponent >= 1074 {
        let up = pow2((exponent - 1074) as nat);
        lemma_pow2_adds((exponent - 1074) as nat, 1074);
        let whole = significand * up;
        assert(m == whole * u) by (nonlinear_arith)
            requires
                m == significand * pow2(exponent),
                pow2(exponent) == up * u,
                whole == significand * up,
        ;
        assert(2 * m + u == whole * (2 * u) + u) by (nonlinear_arith)
            requires
                m == whole * u,
        ;
        vstd::arithmetic::div_mod::lemma_fundamental_div_mod_converse(
            (2 * m + u) as int,
            (2 * u) as int,
            whole as int,
            u as int,
        );
    } else {
        let down = pow2((1074 - exponent) as nat);
        let half = pow2((1073 - exponent) as nat);
        let c = pow2(exponent);
        lemma_pow2_pos((1074 - exponent) as nat);
        lemma_pow2_double((1074 - exponent) as nat);
        lemma_pow2_adds((1074 - exponent) as nat, exponent);
        assert(u == down * c);
        assert(2 * m + u == (significand + half) * (2 * c)) by (nonlinear_arith)
            requires
                m == significand * c,
                u == down * c,
                down == 2 * half,
        ;
        assert(2 * u == down * (2 * c)) by (nonlinear_arith)
            requires
                u == down * c,
        ;
        lemma_nearest_even_scaled(significand + half, down, 2 * c);
    }
}

impl Number {
    /// Whether the number is less than zero.
    pub fn is_negative(&self) -> (r: bool)
        ensures
            r == below_zero(self@),
    {
        !self.is_nan() && self.sign() && !self.is_zero()
    }

    /// The size of the number as a whole number of at most 2^64: truncated if
    /// `round` is not set, and rounded with half-way cases upward if it is.
    /// An infinity gives 2^64.
    fn whole_size(&self, round: bool) -> (w: u128)
        requires
            !(self@ == Double::NaN),
        ensures
            w <= 0x1_0000_0000_0000_0000,
            match self@ {
                Double::NaN => true,
                Double::Infinite { .. } => w == 0x1_0000_0000_0000_0000,
                Double::Finite { magnitude, .. } => {
                    let exact = if round {
                        (2 * magnitude + unit()) / (2 * unit())
                    } else {
                        magnitude / unit()
                    };
                    w == if exact > 0x1_0000_0000_0000_0000 {
                        0x1_0000_0000_0000_0000
                    } else {
                        exact
                    }
                },
            },
    {
        if self.is_infinite() {
            return 0x1_0000_0000_0000_0000;
        }
        let (negative, sig, k) = self.parts();
        proof {
            lemma_pow2_wide();
            lemma_whole_part(sig as nat, k as nat);
            lemma_rounded_part(sig as nat, k as nat);
        }
        if k >= 1074 {
            let sh: u64 = k - 1074;
            if sh > 64 {
                proof {
                    lemma_pow2_monotone(65, sh as nat);
                    lemma_pow2_adds(64, 1);
                    assert(sig as nat * pow2(sh as nat) > 0x1_0000_0000_0000_0000) by (nonlinear_arith)
                        requires
                            sig >= 0x10_0000_0000_0000,
                            pow2(sh as nat) >= 2 * 0x1_0000_0000_0000_0000,
                    ;
                }
                0x1_0000_0000_0000_0000
            } else {
                let scale = power_of_two(sh as u32);
                proof {
                    lemma_pow2_monotone(sh as nat, 64);
                    assert(sig as nat * scale <= 0x20_0000_0000_0000 * 0x1_0000_0000_0000_0000)
                        by (nonlinear_arith)
                        requires
                            sig < 0x20_0000_0000_0000,
                            0 < scale <= 0x1_0000_0000_0000_0000,
                    ;
                }
                let v: u128 = sig as u128 * scale;
                if v > 0x1_0000_0000_0000_0000 {
                    0x1_0000_0000_0000_0000
                } else {
                    v
                }
            }
        } else {
            let sh: u64 = 1074 - k;
            if sh > 64 {
                proof {
                    // nothing is left: the significand is below half of the last place
                    let down = pow2(sh as nat);
                    let half = pow2((sh - 1) as nat);
                    lemma_pow2_double(sh as nat);
                    lemma_pow2_monotone(64, (sh - 1) as nat);
                    vstd::arithmetic::div_mod::lemma_basic_div(sig as int, down as int);
                    vstd::arithmetic::div_mod::lemma_basic_div((sig + half) as int, down as int);
                }
                0
            } else {
                let down = power_of_two(sh as u32);
                if round {
                    let half = power_of_two((sh - 1) as u32);
                    proof {
                        lemma_pow2_monotone((sh - 1) as nat, 63);
                        vstd::arithmetic::div_mod::lemma_div_nonincreasing(
                            (sig as u128 + half) as int,
                            down as int,
                        );
                    }
                    (sig as u128 + half) / down
                } else {
                    proof {
                        vstd::arithmetic::div_mod::lemma_div_nonincreasing(sig as int, down as int);
                    }
                    sig as u128 / down
                }
            }
        }
    }

    /// The number truncated toward zero, as a size: zero for a negative
    /// number and for what is not a number, the largest size for a number too
    /// large.
    pub fn to_usize(&self) -> (r: usize)
        ensures
            r == truncated(self@, 0, usize::MAX as int),
    {
        if self.is_nan() {
            return 0;
        }
        if self.sign() {
            proof {
                lemma_pow2_pos(1074);
                if let Double::Finite { magnitude, .. } = self@ {
                    vstd::arithmetic::div_mod::lemma_div_pos_is_pos(magnitude as int, unit() as int);
                }
            }
            return 0;
        }
        let w = self.whole_size(false);
        if w > usize::MAX as u128 {
            usize::MAX
        } else {
            w as usize
        }
    }

    /// The number rounded to the nearest whole number, away from zero where
    /// two are equally near: zero for what is not a number, and the nearest
    /// bound of the range for a number outside it.
    pub fn round_to_isize(&self) -> (r: isize)
        ensures
            r == rounded_away(self@, isize::MIN as int, isize::MAX as int),
    {
        if self.is_nan() {
            return 0;
        }
        let w = self.whole_size(true);
        if self.sign() {
            if w > isize::MAX as u128 {
                isize::MIN
            } else {
                -(w as isize)
            }
        } else {
            if w > isize::MAX as u128 {
                isize::MAX
            } else {
                w as isize
            }
        }
    }
}

} // verus!
