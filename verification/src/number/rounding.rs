//! Rounding: how the nearest number of the format is found from a truncated
//! quotient and the knowledge of whether anything was cut off.

use crate::number::model::{bit_length, nearest_even, rounded_magnitude, ulp_exponent};
use vstd::arithmetic::div_mod::{
    lemma_div_denominator, lemma_div_multiples_vanish_quotient, lemma_fundamental_div_mod,
    lemma_fundamental_div_mod_converse, lemma_truncate_middle,
};
use vstd::arithmetic::power2::{lemma_pow2_adds, lemma_pow2_pos, lemma_pow2_strictly_increases, lemma_pow2_unfold, pow2};
use vstd::prelude::*;

verus! {

/// Powers of two grow with the exponent.
pub proof fn lemma_pow2_monotone(a: nat, b: nat)
    requires
        a <= b,
    ensures
        0 < pow2(a) <= pow2(b),
{
    lemma_pow2_pos(a);
    if a < b {
        lemma_pow2_strictly_increases(a, b);
    }
}

/// A power of two with a positive exponent is twice the power before it.
pub proof fn lemma_pow2_double(e: nat)
    requires
        e >= 1,
    ensures
        pow2(e) == 2 * pow2((e - 1) as nat),
        pow2((e - 1) as nat) > 0,
{
    lemma_pow2_unfold(e);
    lemma_pow2_pos((e - 1) as nat);
}

/// A positive number lies between the two powers of two that its number of
/// digits names.
pub proof fn lemma_bit_length_bounds(n: nat)
    requires
        n > 0,
    ensures
        bit_length(n) >= 1,
        pow2((bit_length(n) - 1) as nat) <= n < pow2(bit_length(n)),
    decreases n,
{
    if n == 1 {
        assert(bit_length(1) == 1 + bit_length(0));
        vstd::arithmetic::power2::lemma2_to64();
    } else {
        lemma_bit_length_bounds(n / 2);
        let l = bit_length(n / 2);
        assert(bit_length(n) == 1 + l);
        lemma_pow2_double(l);
        lemma_pow2_double(l + 1);
    }
}

/// The number of digits is the only `l` with `2^(l-1) <= n < 2^l`.
pub proof fn lemma_bit_length_unique(n: nat, l: nat)
    requires
        l >= 1,
        pow2((l - 1) as nat) <= n < pow2(l),
    ensures
        bit_length(n) == l,
{
    lemma_pow2_pos((l - 1) as nat);
    lemma_bit_length_bounds(n);
    let b = bit_length(n);
    if b < l {
        lemma_pow2_monotone(b, (l - 1) as nat);
    } else if b > l {
        lemma_pow2_monotone(l, (b - 1) as nat);
    }
}

/// A number below `2^l` has at most `l` digits.
pub proof fn lemma_bit_length_below(n: nat, l: nat)
    requires
        n < pow2(l),
    ensures
        bit_length(n) <= l,
{
    if n > 0 {
        lemma_bit_length_bounds(n);
        let b = bit_length(n);
        if b > l {
            lemma_pow2_monotone(l, (b - 1) as nat);
        }
    }
}

/// A number of at least `2^l` has more than `l` digits.
pub proof fn lemma_bit_length_above(n: nat, l: nat)
    requires
        n >= pow2(l),
    ensures
        bit_length(n) > l,
{
    lemma_pow2_pos(l);
    lemma_bit_length_bounds(n);
    let b = bit_length(n);
    if b <= l {
        lemma_pow2_monotone(b, l);
    }
}

/// Cutting `s` digits off the end of a number leaves `s` digits fewer.
pub proof fn lemma_bit_length_of_quotient(n: nat, s: nat)
    requires
        n / pow2(s) > 0,
    ensures
        bit_length(n) == bit_length(n / pow2(s)) + s,
{
    let p = pow2(s);
    lemma_pow2_pos(s);
    let q = n / p;
    lemma_fundamental_div_mod(n as int, p as int);
    lemma_bit_length_bounds(q);
    let l = bit_length(q);
    lemma_pow2_adds((l - 1) as nat, s);
    lemma_pow2_adds(l, s);
    assert(pow2((l - 1) as nat) * p <= q * p) by (nonlinear_arith)
        requires
            pow2((l - 1) as nat) <= q,
            p > 0,
    ;
    assert((q + 1) * p <= pow2(l) * p) by (nonlinear_arith)
        requires
            q + 1 <= pow2(l),
            p > 0,
    ;
    assert(n == p * q + n % p);
    assert(0 <= n % p < p);
    assert(q * p <= n < (q + 1) * p) by (nonlinear_arith)
        requires
            n == p * q + n % p,
            0 <= n % p < p,
    ;
    lemma_bit_length_unique(n, l + s);
}

/// Where nothing is left after `s` digits are cut off, the number has at most
/// `s` digits.
pub proof fn lemma_bit_length_of_small(n: nat, s: nat)
    requires
        n / pow2(s) == 0,
    ensures
        bit_length(n) <= s,
{
    let p = pow2(s);
    lemma_pow2_pos(s);
    lemma_fundamental_div_mod(n as int, p as int);
    assert(n == p * 0 + n % p);
    assert(n < p);
    lemma_bit_length_below(n, s);
}

/// Digits appended to a positive number add to its length.
pub proof fn lemma_bit_length_of_multiple(n: nat, s: nat)
    requires
        n > 0,
    ensures
        bit_length(n * pow2(s)) == bit_length(n) + s,
{
    let p = pow2(s);
    lemma_pow2_pos(s);
    assert((n * p) / p == n) by (nonlinear_arith)
        requires
            p > 0,
    ;
    lemma_bit_length_of_quotient(n * p, s);
}

/// A whole number rounded at the digit `s`: the digits above it, plus one
/// where the digits below it are more than half of the last place, or exactly
/// half with `inexact` set or with an odd number above.
pub open spec fn round_at(whole: nat, s: nat, inexact: bool) -> nat
    recommends
        s >= 1,
{
    let q = whole / pow2(s);
    let r = whole % pow2(s);
    let half = pow2((s - 1) as nat);
    if r > half || (r == half && inexact) {
        q + 1
    } else if r == half && q % 2 == 1 {
        q + 1
    } else {
        q
    }
}

/// The nearest whole number to `num / (den * 2^s)` is found from the
/// truncated quotient `num / den` and the knowledge of whether the division
/// left a remainder.
pub proof fn lemma_round_from_quotient(num: nat, den: nat, s: nat)
    requires
        den > 0,
        s >= 1,
    ensures
        nearest_even(num, den * pow2(s)) == round_at(num / den, s, num % den != 0),
{
    let whole = num / den;
    let rho = num % den;
    let p = pow2(s);
    let half = pow2((s - 1) as nat);
    lemma_pow2_double(s);
    let q = whole / p;
    let r = whole % p;
    lemma_fundamental_div_mod(num as int, den as int);
    lemma_fundamental_div_mod(whole as int, p as int);
    assert(0 <= rho < den);
    assert(0 <= r < p);
    let big = den * p;
    let rest = r * den + rho;
    assert(big > 0) by (nonlinear_arith)
        requires
            big == den * p,
            den > 0,
            p > 0,
    ;
    assert(0 <= rest < big) by (nonlinear_arith)
        requires
            rest == r * den + rho,
            big == den * p,
            0 <= rho < den,
            0 <= r < p,
    ;
    assert(num == q * big + rest) by (nonlinear_arith)
        requires
            num == den * whole + rho,
            whole == p * q + r,
            big == den * p,
            rest == r * den + rho,
    ;
    lemma_fundamental_div_mod_converse(num as int, big as int, q as int, rest as int);
    assert(num / big == q);
    assert(num % big == rest);
    // how twice the remainder compares with the divisor
    assert(2 * rest < big <==> r < half) by (nonlinear_arith)
        requires
            rest == r * den + rho,
            big == den * p,
            p == 2 * half,
            0 <= rho < den,
            0 <= r,
            half > 0,
    ;
    assert(2 * rest > big <==> (r > half || (r == half && rho > 0))) by (nonlinear_arith)
        requires
            rest == r * den + rho,
            big == den * p,
            p == 2 * half,
            0 <= rho < den,
            0 <= r,
            half > 0,
    ;
}

/// Multiplying numerator and denominator by the same positive number does not
/// change the quotient or the rounding.
pub proof fn lemma_nearest_even_scaled(num: nat, den: nat, c: nat)
    requires
        den > 0,
        c > 0,
    ensures
        (num * c) / (den * c) == num / den,
        ((num * c) % (den * c) == 0) == (num % den == 0),
        nearest_even(num * c, den * c) == nearest_even(num, den),
{
    lemma_div_multiples_vanish_quotient(c as int, num as int, den as int);
    lemma_truncate_middle(num as int, c as int, den as int);
    assert(num * c == c * num) by (nonlinear_arith);
    assert(den * c == c * den) by (nonlinear_arith);
    let r = num % den;
    assert((num * c) % (den * c) == c * r);
    assert(0 <= r < den);
    assert(2 * (c * r) < den * c <==> 2 * r < den) by (nonlinear_arith)
        requires
            c > 0,
    ;
    assert(2 * (c * r) > den * c <==> 2 * r > den) by (nonlinear_arith)
        requires
            c > 0,
    ;
    assert((c * r == 0) == (r == 0)) by (nonlinear_arith)
        requires
            c > 0,
            r >= 0,
    ;
}

/// The quotient `num / den` divided by `2^e`, truncated: with more digits for
/// a negative `e`.
pub open spec fn scaled_floor(num: nat, den: nat, e: int) -> nat
    recommends
        den > 0,
{
    if e >= 0 {
        num / (den * pow2(e as nat))
    } else {
        (num * pow2((-e) as nat)) / den
    }
}

/// Whether the truncation in `scaled_floor` cut anything off.
pub open spec fn scaled_inexact(num: nat, den: nat, e: int) -> bool
    recommends
        den > 0,
{
    if e >= 0 {
        num % (den * pow2(e as nat)) != 0
    } else {
        (num * pow2((-e) as nat)) % den != 0
    }
}

/// The spacing exponent that belongs to a truncated quotient of `digits`
/// digits at the exponent `e`.
pub open spec fn spacing_for(digits: nat, e: int) -> nat {
    if digits + e <= 53 {
        0
    } else {
        (digits + e - 53) as nat
    }
}

/// The spacing around `num / den` is known from the number of digits of a
/// truncated quotient and its exponent.
pub proof fn lemma_ulp_exponent_from_quotient(num: nat, den: nat, e: int)
    requires
        den > 0,
        scaled_floor(num, den, e) > 0,
    ensures
        ulp_exponent(num, den) == spacing_for(bit_length(scaled_floor(num, den, e)), e),
{
    let q = scaled_floor(num, den, e);
    let whole = num / den;
    if e >= 0 {
        let p = pow2(e as nat);
        lemma_pow2_pos(e as nat);
        lemma_div_denominator(num as int, den as int, p as int);
        assert(q == whole / p);
        lemma_bit_length_of_quotient(whole, e as nat);
    } else {
        let s = (-e) as nat;
        let p = pow2(s);
        lemma_pow2_pos(s);
        // (num * p) / den / p == num / den
        lemma_div_denominator((num * p) as int, den as int, p as int);
        lemma_nearest_even_scaled(num, den, p);
        assert(q / p == whole);
        if whole > 0 {
            lemma_bit_length_of_quotient(q, s);
        } else {
            lemma_bit_length_of_small(q, s);
            assert(bit_length(0) == 0);
        }
    }
}

/// Where the quotient at the exponent `e` is exact and the spacing exponent
/// `k` is no more than `e`, the rounding at the spacing is exact too.
pub proof fn lemma_round_exact(num: nat, den: nat, e: nat, k: nat)
    requires
        den > 0,
        k <= e,
        num % (den * pow2(e)) == 0,
    ensures
        nearest_even(num, den * pow2(k)) == (num / (den * pow2(e))) * pow2((e - k) as nat),
{
    let pe = pow2(e);
    let pk = pow2(k);
    let pd = pow2((e - k) as nat);
    lemma_pow2_pos(e);
    lemma_pow2_pos(k);
    lemma_pow2_pos((e - k) as nat);
    lemma_pow2_adds(k, (e - k) as nat);
    let q = num / (den * pe);
    assert(den * pe > 0) by (nonlinear_arith)
        requires
            den > 0,
            pe > 0,
    ;
    assert(den * pk > 0) by (nonlinear_arith)
        requires
            den > 0,
            pk > 0,
    ;
    lemma_fundamental_div_mod(num as int, (den * pe) as int);
    assert(num == (q * pd) * (den * pk) + 0) by (nonlinear_arith)
        requires
            num == (den * pe) * q + 0,
            pe == pk * pd,
    ;
    lemma_fundamental_div_mod_converse(num as int, (den * pk) as int, (q * pd) as int, 0);
}

/// Rounding at the spacing, found from a truncated quotient with `s` digits
/// to spare.
pub proof fn lemma_round_from_scaled(num: nat, den: nat, e: int, k: nat, s: nat)
    requires
        den > 0,
        s >= 1,
        s == k - e,
    ensures
        nearest_even(num, den * pow2(k)) == round_at(
            scaled_floor(num, den, e),
            s,
            scaled_inexact(num, den, e),
        ),
{
    if e >= 0 {
        let pe = pow2(e as nat);
        lemma_pow2_pos(e as nat);
        lemma_pow2_adds(e as nat, s);
        assert(den * pe > 0) by (nonlinear_arith)
            requires
                den > 0,
                pe > 0,
        ;
        assert((den * pe) * pow2(s) == den * pow2(k)) by (nonlinear_arith)
            requires
                pow2(k) == pe * pow2(s),
        ;
        lemma_round_from_quotient(num, den * pe, s);
    } else {
        let c = pow2((-e) as nat);
        lemma_pow2_pos((-e) as nat);
        lemma_pow2_adds(k, (-e) as nat);
        lemma_pow2_pos(k);
        assert(den * pow2(s) == (den * pow2(k)) * c) by (nonlinear_arith)
            requires
                pow2(s) == pow2(k) * c,
        ;
        assert(den * pow2(k) > 0) by (nonlinear_arith)
            requires
                den > 0,
                pow2(k) > 0,
        ;
        lemma_round_from_quotient(num * c, den, s);
        lemma_nearest_even_scaled(num, den * pow2(k), c);
    }
}

/// The truncated quotient of `n * 2^a` by `m * 2^b` at the exponent `a - b -
/// g` is the quotient of `n * 2^g` by `m`, and one is exact where the other
/// is.
pub proof fn lemma_scaled_quotient(n: nat, m: nat, a: nat, b: nat, g: nat, e: int)
    requires
        m > 0,
        e == a - b - g,
    ensures
        m * pow2(b) > 0,
        scaled_floor(n * pow2(a), m * pow2(b), e) == (n * pow2(g)) / m,
        scaled_inexact(n * pow2(a), m * pow2(b), e) == ((n * pow2(g)) % m != 0),
{
    let num = n * pow2(a);
    let den = m * pow2(b);
    let top = n * pow2(g);
    lemma_pow2_pos(b);
    assert(den > 0) by (nonlinear_arith)
        requires
            den == m * pow2(b),
            m > 0,
            pow2(b) > 0,
    ;
    if e >= 0 {
        let c = pow2((b + e) as nat);
        lemma_pow2_pos((b + e) as nat);
        lemma_pow2_adds(b, e as nat);
        lemma_pow2_adds(g, (b + e) as nat);
        assert(den * pow2(e as nat) == m * c) by (nonlinear_arith)
            requires
                den == m * pow2(b),
                c == pow2(b) * pow2(e as nat),
        ;
        assert(num == top * c) by (nonlinear_arith)
            requires
                num == n * pow2(a),
                top == n * pow2(g),
                pow2(a) == pow2(g) * c,
        ;
        lemma_nearest_even_scaled(top, m, c);
    } else {
        let c = pow2(b);
        lemma_pow2_adds(a, (-e) as nat);
        lemma_pow2_adds(g, b);
        assert(num * pow2((-e) as nat) == top * c) by (nonlinear_arith)
            requires
                num == n * pow2(a),
                top == n * pow2(g),
                pow2(a) * pow2((-e) as nat) == pow2(g) * c,
        ;
        lemma_nearest_even_scaled(top, m, c);
    }
}

/// A magnitude with a significand of at most 53 digits is a number of the
/// format: rounding leaves it as it is.
pub proof fn lemma_rounded_representable(significand: nat, exponent: nat)
    requires
        significand < pow2(53),
    ensures
        rounded_magnitude(significand * pow2(exponent), 1) == significand * pow2(exponent),
{
    let n = significand * pow2(exponent);
    lemma_pow2_pos(exponent);
    if significand == 0 {
        assert(n == 0) by (nonlinear_arith)
            requires
                n == significand * pow2(exponent),
                significand == 0,
        ;
        assert(bit_length(0) == 0);
        vstd::arithmetic::power2::lemma2_to64();
        assert(rounded_magnitude(0, 1) == 0) by (nonlinear_arith)
            requires
                rounded_magnitude(0, 1) == nearest_even(0, 1 * pow2(0)) * pow2(0),
                pow2(0) == 1,
                nearest_even(0, 1) == 0,
        ;
    } else {
        lemma_bit_length_of_multiple(significand, exponent);
        lemma_bit_length_below(significand, 53);
        let k = ulp_exponent(n, 1);
        assert(n / 1 == n);
        assert(k <= exponent);
        assert(n % pow2(exponent) == 0) by {
            vstd::arithmetic::div_mod::lemma_mod_multiples_basic(significand as int, pow2(exponent) as int);
        }
        assert(1 * pow2(exponent) == pow2(exponent));
        lemma_round_exact(n, 1, exponent, k);
        assert(n / pow2(exponent) == significand) by (nonlinear_arith)
            requires
                n == significand * pow2(exponent),
                pow2(exponent) > 0,
        ;
        lemma_pow2_adds(k, (exponent - k) as nat);
        assert(significand * pow2((exponent - k) as nat) * pow2(k) == n) by (nonlinear_arith)
            requires
                n == significand * pow2(exponent),
                pow2(exponent) == pow2(k) * pow2((exponent - k) as nat),
        ;
    }
}

/// Whether a magnitude is one that the format has, the range aside: a
/// significand of at most 53 digits times a power of two.
pub open spec fn representable(m: nat) -> bool {
    exists|significand: nat, exponent: nat| #[trigger] made_of(m, significand, exponent)
}

/// Whether `m` is the given significand, of at most 53 digits, times two to
/// the given exponent.
pub open spec fn made_of(m: nat, significand: nat, exponent: nat) -> bool {
    significand < pow2(53) && m == significand * pow2(exponent)
}

/// How far the magnitude `m` lies from `num / den`, in units of `1 / den`.
pub open spec fn distance(m: nat, num: nat, den: nat) -> int {
    if m * den >= num {
        m * den - num
    } else {
        num - m * den
    }
}

/// The nearest whole number to a quotient is one of the two whole numbers
/// around the quotient, and no further from it than either.
proof fn lemma_nearest_even_is_nearest(num: nat, den: nat)
    requires
        den > 0,
    ensures
        nearest_even(num, den) == num / den || nearest_even(num, den) == num / den + 1,
        (num / den) * den <= num < (num / den + 1) * den,
        distance(nearest_even(num, den), num, den) <= num - (num / den) * den,
        distance(nearest_even(num, den), num, den) <= (num / den + 1) * den - num,
{
    let q = num / den;
    let r = num % den;
    lemma_fundamental_div_mod(num as int, den as int);
    assert(q * den == den * q) by (nonlinear_arith);
    assert((q + 1) * den == den * q + den) by (nonlinear_arith);
}

/// A rounded magnitude has a significand of at most 53 digits.
pub proof fn lemma_rounded_is_representable(num: nat, den: nat)
    requires
        den > 0,
    ensures
        representable(rounded_magnitude(num, den)),
{
    let k = ulp_exponent(num, den);
    let u = pow2(k);
    let whole = num / den;
    let big = den * u;
    lemma_pow2_pos(k);
    assert(big > 0) by (nonlinear_arith)
        requires
            big == den * u,
            den > 0,
            u > 0,
    ;
    let f = num / big;
    lemma_div_denominator(num as int, den as int, u as int);
    assert(f == whole / u);
    // the digits above the spacing are fewer than 54
    if bit_length(whole) <= 53 {
        vstd::arithmetic::power2::lemma2_to64();
        assert(u == 1);
        if whole > 0 {
            lemma_bit_length_bounds(whole);
            lemma_pow2_monotone(bit_length(whole), 53);
        } else {
            lemma_pow2_pos(53);
        }
        assert(f < pow2(53));
    } else {
        lemma_bit_length_bounds(whole);
        lemma_pow2_adds(53, k);
        assert(whole < pow2(53) * u);
        assert(f < pow2(53)) by (nonlinear_arith)
            requires
                f == whole / u,
                whole < pow2(53) * u,
                u > 0,
        ;
    }
    lemma_nearest_even_is_nearest(num, big);
    let q = nearest_even(num, big);
    if q < pow2(53) {
        assert(made_of(rounded_magnitude(num, den), q, k));
    } else {
        assert(q == pow2(53));
        lemma_pow2_double(53);
        lemma_pow2_double(k + 1);
        lemma_pow2_monotone(52, 53);
        let half = pow2(52);
        assert(q * u == half * pow2(k + 1)) by (nonlinear_arith)
            requires
                q == 2 * half,
                pow2(k + 1) == 2 * u,
        ;
        assert(half < pow2(53));
        assert(made_of(rounded_magnitude(num, den), half, k + 1));
    }
}

/// Rounding is to the nearest: no magnitude that the format has lies nearer
/// to `num / den` than the rounded magnitude.
pub proof fn lemma_rounded_is_nearest(num: nat, den: nat, other: nat)
    requires
        den > 0,
        representable(other),
    ensures
        distance(rounded_magnitude(num, den), num, den) <= distance(other, num, den),
{
    let k = ulp_exponent(num, den);
    let u = pow2(k);
    let whole = num / den;
    let big = den * u;
    lemma_pow2_pos(k);
    assert(big > 0) by (nonlinear_arith)
        requires
            big == den * u,
            den > 0,
            u > 0,
    ;
    let f = num / big;
    let q = nearest_even(num, big);
    let rm = rounded_magnitude(num, den);
    lemma_nearest_even_is_nearest(num, big);
    assert(rm == q * u);
    assert(rm * den == q * big) by (nonlinear_arith)
        requires
            rm == q * u,
            big == den * u,
    ;
    assert((f * u) * den == f * big) by (nonlinear_arith)
        requires
            big == den * u,
    ;
    assert(((f + 1) * u) * den == (f + 1) * big) by (nonlinear_arith)
        requires
            big == den * u,
    ;
    if other <= f * u {
        assert(other * den <= (f * u) * den) by (nonlinear_arith)
            requires
                other <= f * u,
                den > 0,
        ;
    } else if other >= (f + 1) * u {
        assert(other * den >= ((f + 1) * u) * den) by (nonlinear_arith)
            requires
                other >= (f + 1) * u,
                den > 0,
        ;
    } else {
        // strictly between two neighbours of the spacing: the format has no such magnitude
        let (sig, j) = choose|sig: nat, j: nat| #[trigger] made_of(other, sig, j);
        lemma_pow2_pos(j);
        if j >= k {
            lemma_pow2_adds(k, (j - k) as nat);
            let times = sig * pow2((j - k) as nat);
            assert(other == times * u) by (nonlinear_arith)
                requires
                    other == sig * pow2(j),
                    pow2(j) == u * pow2((j - k) as nat),
                    times == sig * pow2((j - k) as nat),
            ;
            assert(false) by (nonlinear_arith)
                requires
                    f * u < times * u,
                    times * u < (f + 1) * u,
                    u > 0,
            ;
        } else {
            // the spacing is more than one, so the quotient has more than 53 digits
            lemma_div_denominator(num as int, den as int, u as int);
            assert(f == whole / u);
            assert(bit_length(whole) == 53 + k);
            lemma_bit_length_bounds(whole);
            lemma_pow2_adds(52, k);
            assert(whole >= pow2(52) * u);
            vstd::arithmetic::div_mod::lemma_div_is_ordered((pow2(52) * u) as int, whole as int, u as int);
            vstd::arithmetic::div_mod::lemma_div_multiples_vanish(pow2(52) as int, u as int);
            assert(pow2(52) * u == u * pow2(52)) by (nonlinear_arith);
            assert(f >= pow2(52));
            lemma_pow2_adds(53, j);
            lemma_pow2_monotone(53 + j, 52 + k);
            assert(other < pow2(53) * pow2(j)) by (nonlinear_arith)
                requires
                    other == sig * pow2(j),
                    sig < pow2(53),
                    pow2(j) > 0,
            ;
            assert(f * u >= pow2(52) * u) by (nonlinear_arith)
                requires
                    f >= pow2(52),
                    u > 0,
            ;
            assert(false);
        }
    }
}

} // verus!
