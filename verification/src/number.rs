//! The numbers of the scripting language: 64-bit binary floating-point
//! numbers, computed on their bit patterns in whole-number arithmetic.

use crate::number::model::{bit_length, decode, rounded, rounded_magnitude, ulp_exponent, Double};
use crate::number::rounding::{
    lemma_bit_length_below, lemma_bit_length_bounds, lemma_bit_length_of_quotient, lemma_pow2_double,
    lemma_pow2_monotone, lemma_round_exact, lemma_round_from_scaled, lemma_ulp_exponent_from_quotient,
    round_at, scaled_floor, scaled_inexact,
};
use vstd::arithmetic::power2::{lemma2_to64, lemma2_to64_rest, lemma_pow2_adds, pow2};
use vstd::prelude::*;

pub mod arith;
pub mod convert;
pub mod laws;
pub mod model;
pub mod rounding;

verus! {

/// A 64-bit binary floating-point number, held as its bit pattern.
#[derive(Clone, Copy, Debug)]
pub struct Number {
    pub bits: u64,
}

impl View for Number {
    type V = Double;

    open spec fn view(&self) -> Double {
        decode(self.bits)
    }
}

/// 2^52: the hidden digit of a significand, and one step of the exponent
/// field.
pub const HIDDEN: u64 = 0x10_0000_0000_0000;

/// 2^63: the sign bit.
pub const SIGN: u64 = 0x8000_0000_0000_0000;

/// 2^127 and 2^128 as numbers.
pub(crate) proof fn lemma_pow2_wide()
    ensures
        pow2(127) == 0x8000_0000_0000_0000_0000_0000_0000_0000,
        pow2(128) == 0x1_0000_0000_0000_0000_0000_0000_0000_0000,
        pow2(120) == 0x100_0000_0000_0000_0000_0000_0000_0000,
        pow2(52) == 0x10_0000_0000_0000,
        pow2(53) == 0x20_0000_0000_0000,
        pow2(63) == 0x8000_0000_0000_0000,
        pow2(64) == 0x1_0000_0000_0000_0000,
        pow2(0) == 1,
        pow2(1) == 2,
{
    lemma2_to64();
    lemma2_to64_rest();
    lemma_pow2_adds(64, 63);
    lemma_pow2_adds(64, 64);
    lemma_pow2_adds(64, 56);
}

/// 2 to the power `k`.
fn power_of_two(k: u32) -> (p: u128)
    requires
        k <= 127,
    ensures
        p == pow2(k as nat),
        p > 0,
{
    let mut p: u128 = 1;
    let mut i: u32 = 0;
    proof {
        lemma_pow2_wide();
    }
    while i < k
        invariant
            i <= k,
            k <= 127,
            p == pow2(i as nat),
            p > 0,
        decreases k - i,
    {
        proof {
            lemma_pow2_double((i + 1) as nat);
            lemma_pow2_monotone((i + 1) as nat, 127);
            lemma_pow2_wide();
        }
        p = p * 2;
        i += 1;
    }
    p
}

/// The number of binary digits of `n`.
fn digits(n: u128) -> (l: u32)
    ensures
        l == bit_length(n as nat),
        l <= 128,
{
    let mut rest: u128 = n;
    let mut l: u32 = 0;
    proof {
        lemma_pow2_wide();
        lemma_bit_length_below(n as nat, 128);
    }
    while rest > 0
        invariant
            bit_length(n as nat) == l + bit_length(rest as nat),
            bit_length(n as nat) <= 128,
        decreases rest,
    {
        rest = rest / 2;
        l += 1;
    }
    l
}

impl Number {
    /// The number with the given bit pattern.
    pub fn from_bits(bits: u64) -> (n: Number)
        ensures
            n.bits == bits,
    {
        Number { bits }
    }

    /// The bit pattern of the number.
    pub fn to_bits(&self) -> (bits: u64)
        ensures
            bits == self.bits,
    {
        self.bits
    }

    /// A value that is not a number.
    pub fn nan() -> (n: Number)
        ensures
            n@ == Double::NaN,
    {
        Number { bits: 0x7ff8_0000_0000_0000 }
    }

    /// Infinity with the given sign.
    pub fn infinity(negative: bool) -> (n: Number)
        ensures
            n@ == (Double::Infinite { negative }),
    {
        if negative {
            Number { bits: 0xfff0_0000_0000_0000 }
        } else {
            Number { bits: 0x7ff0_0000_0000_0000 }
        }
    }

    /// Zero with the given sign.
    pub fn zero(negative: bool) -> (n: Number)
        ensures
            n@ == (Double::Finite { negative, magnitude: 0 }),
    {
        if negative {
            Number { bits: 0x8000_0000_0000_0000 }
        } else {
            Number { bits: 0 }
        }
    }

    /// Whether the number has the negative sign.
    fn sign(&self) -> (negative: bool)
        ensures
            negative == (self.bits >= 0x8000_0000_0000_0000),
    {
        self.bits >= SIGN
    }

    /// The exponent field: eleven bits.
    fn exponent_field(&self) -> (e: u64)
        ensures
            e == (self.bits % 0x8000_0000_0000_0000) / 0x10_0000_0000_0000,
            e <= 2047,
    {
        (self.bits % SIGN) / HIDDEN
    }

    /// The fraction field: 52 bits.
    fn fraction_field(&self) -> (f: u64)
        ensures
            f == (self.bits % 0x8000_0000_0000_0000) % 0x10_0000_0000_0000,
            f < 0x10_0000_0000_0000,
    {
        (self.bits % SIGN) % HIDDEN
    }

    /// Whether this is not a number.
    pub fn is_nan(&self) -> (r: bool)
        ensures
            r == (self@ == Double::NaN),
    {
        self.exponent_field() == 2047 && self.fraction_field() != 0
    }

    /// Whether this is an infinity.
    pub fn is_infinite(&self) -> (r: bool)
        ensures
            r == (self@ matches Double::Infinite { .. }),
    {
        self.exponent_field() == 2047 && self.fraction_field() == 0
    }

    /// The sign, the significand and the exponent of a finite number: its
    /// magnitude is the significand times two to the exponent.
    fn parts(&self) -> (r: (bool, u64, u64))
        requires
            self@ matches Double::Finite { .. },
        ensures
            self@ == (Double::Finite { negative: r.0, magnitude: r.1 as nat * pow2(r.2 as nat) }),
            r.1 < 0x20_0000_0000_0000,
            r.2 <= 2045,
            r.2 >= 1 ==> r.1 >= 0x10_0000_0000_0000,
    {
        let e = self.exponent_field();
        let f = self.fraction_field();
        proof {
            lemma_pow2_wide();
        }
        if e == 0 {
            assert(f as nat * pow2(0) == f as nat) by (nonlinear_arith)
                requires
                    pow2(0) == 1,
            ;
            (self.sign(), f, 0)
        } else {
            (self.sign(), HIDDEN + f, e - 1)
        }
    }

    /// The finite number with the given sign, significand and exponent.
    fn pack(negative: bool, significand: u64, exponent: u64) -> (n: Number)
        requires
            significand < 0x20_0000_0000_0000,
            exponent <= 2045,
            significand < 0x10_0000_0000_0000 ==> exponent == 0,
        ensures
            n@ == (Double::Finite { negative, magnitude: significand as nat * pow2(exponent as nat) }),
    {
        let sign: u64 = if negative { SIGN } else { 0 };
        proof {
            lemma_pow2_wide();
        }
        if significand < HIDDEN {
            assert(significand as nat * pow2(0) == significand as nat) by (nonlinear_arith)
                requires
                    pow2(0) == 1,
            ;
            Number { bits: sign + significand }
        } else {
            let field: u64 = exponent + 1;
            let rest: u64 = field * HIDDEN + (significand - HIDDEN);
            assert(rest / 0x10_0000_0000_0000 == field && rest % 0x10_0000_0000_0000 == significand
                - 0x10_0000_0000_0000) by {
                vstd::arithmetic::div_mod::lemma_fundamental_div_mod_converse(
                    rest as int,
                    0x10_0000_0000_0000,
                    field as int,
                    (significand - 0x10_0000_0000_0000) as int,
                );
            }
            Number { bits: sign + rest }
        }
    }
}

/// The number of the format nearest to `num / den` units, from the truncated
/// quotient `q` at the exponent `e` and the knowledge of whether the
/// truncation cut anything off.
fn round_pack(
    negative: bool,
    q: u128,
    e: i64,
    inexact: bool,
    Ghost(num): Ghost<nat>,
    Ghost(den): Ghost<nat>,
) -> (r: Number)
    requires
        den > 0,
        q > 0,
        q < pow2(120),
        -5000 <= e <= 5000,
        q == scaled_floor(num, den, e as int),
        inexact == scaled_inexact(num, den, e as int),
        inexact ==> q >= pow2(53),
    ensures
        r@ == rounded(negative, num, den),
{
    let l: i64 = digits(q) as i64;
    let k: i64 = if l + e <= 53 { 0 } else { l + e - 53 };
    let s: i64 = k - e;
    let ghost target = crate::number::model::nearest_even(num, den * pow2(k as nat));
    proof {
        lemma_pow2_wide();
        lemma_bit_length_bounds(q as nat);
        lemma_bit_length_below(q as nat, 120);
        lemma_ulp_exponent_from_quotient(num, den, e as int);
        assert(ulp_exponent(num, den) == k);
        if inexact {
            crate::number::rounding::lemma_bit_length_above(q as nat, 53);
        }
    }
    let mut sig: u128 = 0;
    if s <= 0 {
        let shift: u32 = (-s) as u32;
        let p = power_of_two(shift);
        proof {
            // the quotient is exact and only moves to the left
            lemma_round_exact(num, den, e as nat, k as nat);
            lemma_pow2_adds(l as nat, shift as nat);
            lemma_pow2_adds((l - 1) as nat, shift as nat);
            lemma_pow2_monotone((l + shift) as nat, 53);
            assert(q * p < pow2(l as nat) * p) by (nonlinear_arith)
                requires
                    q < pow2(l as nat),
                    p > 0,
            ;
            assert(q * p >= pow2((l - 1) as nat) * p) by (nonlinear_arith)
                requires
                    q >= pow2((l - 1) as nat),
                    p > 0,
            ;
        }
        sig = q * p;
        assert(sig == target);
        assert(sig < pow2(53));
        assert(k >= 1 ==> sig >= pow2(52));
    } else if s > l + 1 {
        proof {
            lemma_round_from_scaled(num, den, e as int, k as nat, s as nat);
            lemma_pow2_monotone(l as nat, (s - 1) as nat);
            lemma_pow2_double(s as nat);
            vstd::arithmetic::div_mod::lemma_small_mod(q as nat, pow2(s as nat));
            vstd::arithmetic::div_mod::lemma_basic_div(q as int, pow2(s as nat) as int);
            assert(round_at(q as nat, s as nat, inexact) == 0);
        }
        sig = 0;
        assert(k == 0);
    } else {
        let p = power_of_two(s as u32);
        let half = power_of_two((s - 1) as u32);
        let hi: u128 = q / p;
        let lo: u128 = q % p;
        let up = lo > half || (lo == half && (inexact || hi % 2 == 1));
        proof {
            lemma_round_from_scaled(num, den, e as int, k as nat, s as nat);
            assert(round_at(q as nat, s as nat, inexact) == hi + if up { 1nat } else { 0nat });
            // the digits that stay
            if hi > 0 {
                lemma_bit_length_of_quotient(q as nat, s as nat);
                lemma_bit_length_bounds(hi as nat);
                lemma_pow2_monotone((l - s) as nat, 53);
                if k >= 1 {
                    assert(bit_length(hi as nat) == 53);
                }
            } else {
                if k >= 1 {
                    // s == l - 53, so at least 2^52 stays
                    lemma_pow2_adds(s as nat, 52);
                    lemma_pow2_monotone(52, (l - 1) as nat);
                    assert(q >= p * 1) by (nonlinear_arith)
                        requires
                            q >= pow2((l - 1) as nat),
                            pow2((l - 1) as nat) == p * pow2(52),
                            pow2(52) >= 1,
                            p > 0,
                    ;
                    vstd::arithmetic::div_mod::lemma_div_is_ordered(p as int, q as int, p as int);
                    vstd::arithmetic::div_mod::lemma_div_by_self(p as int);
                }
            }
        }
        sig = hi + if up { 1 } else { 0 };
        assert(sig == target);
        assert(sig <= pow2(53));
        assert(k >= 1 ==> sig >= pow2(52));
    }
    assert(sig == target);
    assert(rounded_magnitude(num, den) == sig * pow2(k as nat));
    let mut significand: u128 = sig;
    let mut exponent: i64 = k;
    if sig == 0x20_0000_0000_0000 {
        proof {
            lemma_pow2_double((k + 1) as nat);
            assert(sig * pow2(k as nat) == 0x10_0000_0000_0000 * pow2((k + 1) as nat)) by (nonlinear_arith)
                requires
                    sig == 0x20_0000_0000_0000,
                    pow2((k + 1) as nat) == 2 * pow2(k as nat),
            ;
        }
        significand = 0x10_0000_0000_0000;
        exponent = k + 1;
    }
    assert(rounded_magnitude(num, den) == significand * pow2(exponent as nat));
    assert(significand < 0x20_0000_0000_0000);
    assert(exponent >= 1 ==> significand >= 0x10_0000_0000_0000);
    if exponent > 2045 {
        proof {
            lemma_pow2_adds(52, 2046);
            lemma_pow2_monotone(2046, exponent as nat);
            assert(significand * pow2(exponent as nat) >= pow2(52) * pow2(2046)) by (nonlinear_arith)
                requires
                    significand >= pow2(52),
                    pow2(exponent as nat) >= pow2(2046),
                    pow2(2046) > 0,
            ;
        }
        Number::infinity(negative)
    } else {
        proof {
            lemma_pow2_adds(53, 2045);
            lemma_pow2_monotone(exponent as nat, 2045);
            assert(significand * pow2(exponent as nat) < pow2(53) * pow2(2045)) by (nonlinear_arith)
                requires
                    significand < pow2(53),
                    0 < pow2(exponent as nat) <= pow2(2045),
            ;
        }
        Number::pack(negative, significand as u64, exponent as u64)
    }
}

} // verus!
