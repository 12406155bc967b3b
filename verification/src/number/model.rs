//! The mathematical model of a 64-bit binary floating-point number and of the
//! arithmetic on such numbers.
//!
//! A finite number is a sign and a magnitude. The magnitude is counted in
//! units of 2^-1074, the smallest positive number of the format, so that every
//! finite number has a whole magnitude. The result of an operation is the
//! exact result rounded to the nearest number of the format, and to the one
//! with an even significand where two are equally near.

use vstd::arithmetic::power2::pow2;
use vstd::prelude::*;

verus! {

/// What a 64-bit binary floating-point number stands for.
pub enum Double {
    /// Not a number. All bit patterns of this kind stand for the same value.
    NaN,
    /// Infinity, positive or negative.
    Infinite { negative: bool },
    /// A finite number, `magnitude` units of 2^-1074 in size. Zero has a sign
    /// too.
    Finite { negative: bool, magnitude: nat },
}

/// The number one, in units of 2^-1074.
pub open spec fn unit() -> nat {
    pow2(1074)
}

/// The least magnitude that is too large for a finite number: 2^1024, in
/// units of 2^-1074.
pub open spec fn overflow_threshold() -> nat {
    pow2(2098)
}

/// The number of binary digits of `n`: 0 for zero, else the `l` with `2^(l-1)
/// <= n < 2^l`.
pub open spec fn bit_length(n: nat) -> nat
    decreases n,
{
    if n == 0 {
        0
    } else {
        1 + bit_length(n / 2)
    }
}

/// The whole number nearest to `num / den`, and the even one of the two where
/// `num / den` lies half-way between two whole numbers.
pub open spec fn nearest_even(num: nat, den: nat) -> nat
    recommends
        den > 0,
{
    let q = num / den;
    let r = num % den;
    if 2 * r < den {
        q
    } else if 2 * r > den {
        q + 1
    } else if q % 2 == 0 {
        q
    } else {
        q + 1
    }
}

/// The exponent of the spacing between the numbers of the format around `num
/// / den`: a significand has 53 binary digits, so the spacing is one unit up
/// to 2^53 units and doubles with every further digit.
pub open spec fn ulp_exponent(num: nat, den: nat) -> nat
    recommends
        den > 0,
{
    let digits = bit_length(num / den);
    if digits <= 53 {
        0
    } else {
        (digits - 53) as nat
    }
}

/// `num / den` units rounded to the nearest multiple of the spacing there.
pub open spec fn rounded_magnitude(num: nat, den: nat) -> nat
    recommends
        den > 0,
{
    let k = ulp_exponent(num, den);
    nearest_even(num, den * pow2(k)) * pow2(k)
}

/// The number of the format nearest to `num / den` units with the given
/// sign: infinity where the rounded magnitude is too large.
pub open spec fn rounded(negative: bool, num: nat, den: nat) -> Double
    recommends
        den > 0,
{
    let m = rounded_magnitude(num, den);
    if m >= overflow_threshold() {
        Double::Infinite { negative }
    } else {
        Double::Finite { negative, magnitude: m }
    }
}

/// What a bit pattern stands for: a sign bit, eleven bits of exponent and 52
/// bits of fraction.
pub open spec fn decode(bits: u64) -> Double {
    let negative = bits >= 0x8000_0000_0000_0000;
    let rest = bits % 0x8000_0000_0000_0000;
    let exponent = rest / 0x10_0000_0000_0000;
    let fraction = rest % 0x10_0000_0000_0000;
    if exponent == 2047 {
        if fraction == 0 {
            Double::Infinite { negative }
        } else {
            Double::NaN
        }
    } else if exponent == 0 {
        Double::Finite { negative, magnitude: fraction as nat }
    } else {
        Double::Finite {
            negative,
            magnitude: ((0x10_0000_0000_0000 + fraction) * pow2((exponent - 1) as nat)) as nat,
        }
    }
}

/// A finite number as a whole number of units, with its sign.
pub open spec fn signed_units(negative: bool, magnitude: nat) -> int {
    if negative {
        -(magnitude as int)
    } else {
        magnitude as int
    }
}

/// The number with the opposite sign.
pub open spec fn negated(a: Double) -> Double {
    match a {
        Double::NaN => Double::NaN,
        Double::Infinite { negative } => Double::Infinite { negative: !negative },
        Double::Finite { negative, magnitude } => Double::Finite { negative: !negative, magnitude },
    }
}

/// The sum of two numbers.
///
/// Infinities of opposite signs have no sum. An exact sum of zero is positive
/// unless both terms are negative.
pub open spec fn sum(a: Double, b: Double) -> Double {
    match (a, b) {
        (Double::NaN, _) => Double::NaN,
        (_, Double::NaN) => Double::NaN,
        (Double::Infinite { negative: na }, Double::Infinite { negative: nb }) => if na == nb {
            a
        } else {
            Double::NaN
        },
        (Double::Infinite { .. }, Double::Finite { .. }) => a,
        (Double::Finite { .. }, Double::Infinite { .. }) => b,
        (
            Double::Finite { negative: na, magnitude: ma },
            Double::Finite { negative: nb, magnitude: mb },
        ) => {
            let exact = signed_units(na, ma) + signed_units(nb, mb);
            if exact == 0 {
                Double::Finite { negative: na && nb, magnitude: 0 }
            } else if exact < 0 {
                rounded(true, (-exact) as nat, 1)
            } else {
                rounded(false, exact as nat, 1)
            }
        },
    }
}

/// The difference of two numbers: the sum of the first and the negated second.
pub open spec fn difference(a: Double, b: Double) -> Double {
    sum(a, negated(b))
}

/// Whether a number is a zero of either sign.
pub open spec fn is_zero(a: Double) -> bool {
    a matches Double::Finite { magnitude, .. } && magnitude == 0
}

/// Whether a number has the negative sign.
pub open spec fn sign_of(a: Double) -> bool {
    match a {
        Double::NaN => false,
        Double::Infinite { negative } => negative,
        Double::Finite { negative, .. } => negative,
    }
}

/// The product of two numbers. Zero times infinity has no value.
pub open spec fn product(a: Double, b: Double) -> Double {
    let negative = sign_of(a) != sign_of(b);
    match (a, b) {
        (Double::NaN, _) => Double::NaN,
        (_, Double::NaN) => Double::NaN,
        (Double::Finite { magnitude: ma, .. }, Double::Finite { magnitude: mb, .. }) => rounded(
            negative,
            ma * mb,
            unit(),
        ),
        _ => if is_zero(a) || is_zero(b) {
            Double::NaN
        } else {
            Double::Infinite { negative }
        },
    }
}

/// The quotient of two numbers. Zero by zero and infinity by infinity have no
/// value; any other number by zero is infinite.
pub open spec fn quotient(a: Double, b: Double) -> Double {
    let negative = sign_of(a) != sign_of(b);
    match (a, b) {
        (Double::NaN, _) => Double::NaN,
        (_, Double::NaN) => Double::NaN,
        (Double::Infinite { .. }, Double::Infinite { .. }) => Double::NaN,
        (Double::Infinite { .. }, Double::Finite { .. }) => Double::Infinite { negative },
        (Double::Finite { .. }, Double::Infinite { .. }) => Double::Finite { negative, magnitude: 0 },
        (Double::Finite { magnitude: ma, .. }, Double::Finite { magnitude: mb, .. }) => if mb == 0 {
            if ma == 0 {
                Double::NaN
            } else {
                Double::Infinite { negative }
            }
        } else {
            rounded(negative, ma * unit(), mb)
        },
    }
}

/// The remainder of a division that truncates its quotient: it has the sign
/// of the dividend and is exact. An infinite dividend and a zero divisor have
/// no remainder; an infinite divisor leaves the dividend.
pub open spec fn remainder(a: Double, b: Double) -> Double {
    match (a, b) {
        (Double::NaN, _) => Double::NaN,
        (_, Double::NaN) => Double::NaN,
        (Double::Infinite { .. }, _) => Double::NaN,
        (Double::Finite { .. }, Double::Infinite { .. }) => a,
        (Double::Finite { negative, magnitude: ma }, Double::Finite { magnitude: mb, .. }) => if mb == 0 {
            Double::NaN
        } else {
            Double::Finite { negative, magnitude: ma % mb }
        },
    }
}

/// A whole number as a number of the format.
pub open spec fn from_whole(n: int) -> Double {
    if n == 0 {
        Double::Finite { negative: false, magnitude: 0 }
    } else if n < 0 {
        rounded(true, ((-n) * unit()) as nat, 1)
    } else {
        rounded(false, (n * unit()) as nat, 1)
    }
}

/// A number truncated toward zero and held to the range from `low` to
/// `high`. What is not a number gives zero.
pub open spec fn truncated(a: Double, low: int, high: int) -> int {
    match a {
        Double::NaN => 0,
        Double::Infinite { negative } => if negative {
            low
        } else {
            high
        },
        Double::Finite { negative, magnitude } => {
            let whole = signed_units(negative, magnitude / unit());
            if whole < low {
                low
            } else if whole > high {
                high
            } else {
                whole
            }
        },
    }
}

/// A number rounded to the nearest whole number, away from zero where two are
/// equally near, and held to the range from `low` to `high`. What is not a
/// number gives zero.
pub open spec fn rounded_away(a: Double, low: int, high: int) -> int {
    match a {
        Double::NaN => 0,
        Double::Infinite { negative } => if negative {
            low
        } else {
            high
        },
        Double::Finite { negative, magnitude } => {
            let whole = signed_units(negative, (2 * magnitude + unit()) / (2 * unit()));
            if whole < low {
                low
            } else if whole > high {
                high
            } else {
                whole
            }
        },
    }
}

/// Whether a number is less than zero.
pub open spec fn below_zero(a: Double) -> bool {
    match a {
        Double::NaN => false,
        Double::Infinite { negative } => negative,
        Double::Finite { negative, magnitude } => negative && magnitude > 0,
    }
}

} // verus!
