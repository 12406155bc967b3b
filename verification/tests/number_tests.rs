use imgscript::number::Number;

fn next(state: &mut u64) -> u64 {
    *state = state.wrapping_mul(6364136223846793005).wrapping_add(1442695040888963407);
    let mut x = *state;
    x ^= x >> 33;
    x = x.wrapping_mul(0xff51afd7ed558ccd);
    x ^= x >> 29;
    x
}

fn sample(state: &mut u64) -> u64 {
    let pick = next(state) % 8;
    let sign = next(state) & 0x8000_0000_0000_0000;
    let fraction = match next(state) % 4 {
        0 => 0,
        1 => 1,
        2 => 0xf_ffff_ffff_ffff,
        _ => next(state) & 0xf_ffff_ffff_ffff,
    };
    let field: u64 = match pick {
        0 => 0,
        1 => 1,
        2 => 2046,
        3 => 2047,
        4 => 1023 + next(state) % 80,
        5 => 1023 - next(state) % 80,
        _ => next(state) % 2048,
    };
    sign | (field << 52) | fraction
}

fn same(got: Number, want: f64) -> bool {
    let have = f64::from_bits(got.to_bits());
    if want.is_nan() {
        have.is_nan()
    } else {
        have.to_bits() == want.to_bits()
    }
}

#[test]
fn sums_agree_with_the_machine() {
    let mut state = 11;
    for _ in 0..200000 {
        let a = sample(&mut state);
        let b = sample(&mut state);
        let got = Number::from_bits(a).plus(Number::from_bits(b));
        assert!(same(got, f64::from_bits(a) + f64::from_bits(b)), "{:x} + {:x}", a, b);
    }
}

#[test]
fn sums_of_near_opposites_agree_with_the_machine() {
    let mut state = 12;
    for _ in 0..100000 {
        let a = sample(&mut state);
        let b = (a ^ 0x8000_0000_0000_0000).wrapping_add(next(&mut state) % 7).wrapping_sub(3);
        let got = Number::from_bits(a).plus(Number::from_bits(b));
        assert!(same(got, f64::from_bits(a) + f64::from_bits(b)), "{:x} + {:x}", a, b);
    }
}

#[test]
fn sums_of_far_exponents_agree_with_the_machine() {
    let mut state = 13;
    for _ in 0..100000 {
        let field = 70 + next(&mut state) % 1900;
        let gap = 50 + next(&mut state) % 20;
        let a = (next(&mut state) & 0x8000_0000_0000_0000) | (field << 52) | (next(&mut state)
            & 0xf_ffff_ffff_ffff);
        let b = (next(&mut state) & 0x8000_0000_0000_0000) | ((field - gap) << 52) | (next(&mut state)
            & 0xf_ffff_ffff_ffff);
        let got = Number::from_bits(a).plus(Number::from_bits(b));
        assert!(same(got, f64::from_bits(a) + f64::from_bits(b)), "{:x} + {:x}", a, b);
        let got = Number::from_bits(b).minus(Number::from_bits(a));
        assert!(same(got, f64::from_bits(b) - f64::from_bits(a)), "{:x} - {:x}", b, a);
    }
}

#[test]
fn differences_agree_with_the_machine() {
    let mut state = 14;
    for _ in 0..200000 {
        let a = sample(&mut state);
        let b = sample(&mut state);
        let got = Number::from_bits(a).minus(Number::from_bits(b));
        assert!(same(got, f64::from_bits(a) - f64::from_bits(b)), "{:x} - {:x}", a, b);
    }
}

#[test]
fn products_agree_with_the_machine() {
    let mut state = 15;
    for _ in 0..200000 {
        let a = sample(&mut state);
        let b = sample(&mut state);
        let got = Number::from_bits(a).times(Number::from_bits(b));
        assert!(same(got, f64::from_bits(a) * f64::from_bits(b)), "{:x} * {:x}", a, b);
    }
}

#[test]
fn quotients_agree_with_the_machine() {
    let mut state = 16;
    for _ in 0..200000 {
        let a = sample(&mut state);
        let b = sample(&mut state);
        let got = Number::from_bits(a).over(Number::from_bits(b));
        assert!(same(got, f64::from_bits(a) / f64::from_bits(b)), "{:x} / {:x}", a, b);
    }
}

#[test]
fn remainders_agree_with_the_machine() {
    let mut state = 17;
    for _ in 0..20000 {
        let a = sample(&mut state);
        let b = sample(&mut state);
        let got = Number::from_bits(a).modulo(Number::from_bits(b));
        assert!(same(got, f64::from_bits(a) % f64::from_bits(b)), "{:x} % {:x}", a, b);
    }
}

#[test]
fn whole_numbers_agree_with_the_machine() {
    let mut state = 18;
    let fixed: [i64; 9] = [
        0,
        1,
        -1,
        5,
        (1 << 53) + 1,
        (1 << 53) + 3,
        i64::MAX,
        i64::MIN,
        123456789012345678,
    ];
    for n in fixed {
        assert_eq!(Number::from_i64(n).to_bits(), (n as f64).to_bits(), "{}", n);
    }
    for _ in 0..100000 {
        let n = next(&mut state) as i64;
        assert_eq!(Number::from_i64(n).to_bits(), (n as f64).to_bits(), "{}", n);
        let m = next(&mut state) as usize;
        assert_eq!(Number::from_usize(m).to_bits(), (m as f64).to_bits(), "{}", m);
    }
}

#[test]
fn truncation_agrees_with_the_machine() {
    let mut state = 19;
    for _ in 0..200000 {
        let a = sample(&mut state);
        let x = f64::from_bits(a);
        assert_eq!(Number::from_bits(a).to_usize(), x as usize, "{:x}", a);
        assert_eq!(Number::from_bits(a).round_to_isize(), x.round() as isize, "{:x}", a);
        assert_eq!(Number::from_bits(a).is_negative(), x < 0.0, "{:x}", a);
        assert_eq!(Number::from_bits(a).is_zero(), x == 0.0, "{:x}", a);
        assert_eq!(Number::from_bits(a).is_nan(), x.is_nan(), "{:x}", a);
        assert_eq!(Number::from_bits(a).is_infinite(), x.is_infinite(), "{:x}", a);
    }
}

#[test]
fn rounding_is_away_from_zero_at_the_half() {
    assert_eq!(Number::from_bits(0.5f64.to_bits()).round_to_isize(), 1);
    assert_eq!(Number::from_bits((-0.5f64).to_bits()).round_to_isize(), -1);
    assert_eq!(Number::from_bits(2.5f64.to_bits()).round_to_isize(), 3);
    assert_eq!(Number::from_bits((-2.5f64).to_bits()).round_to_isize(), -3);
    assert_eq!(Number::from_bits(0.49999999999999994f64.to_bits()).round_to_isize(), 0);
    assert_eq!(Number::from_bits(2.4f64.to_bits()).round_to_isize(), 2);
    assert_eq!(Number::from_bits(f64::NAN.to_bits()).round_to_isize(), 0);
    assert_eq!(Number::from_bits(f64::INFINITY.to_bits()).round_to_isize(), isize::MAX);
    assert_eq!(Number::from_bits(f64::NEG_INFINITY.to_bits()).round_to_isize(), isize::MIN);
}

#[test]
fn truncation_is_toward_zero_and_saturates() {
    assert_eq!(Number::from_bits(3.99f64.to_bits()).to_usize(), 3);
    assert_eq!(Number::from_bits((-3.99f64).to_bits()).to_usize(), 0);
    assert_eq!(Number::from_bits(1e300f64.to_bits()).to_usize(), usize::MAX);
    assert_eq!(Number::from_bits(f64::NAN.to_bits()).to_usize(), 0);
}

#[test]
fn a_tenth_and_two_tenths() {
    let a = Number::from_bits(0.1f64.to_bits());
    let b = Number::from_bits(0.2f64.to_bits());
    assert_eq!(a.plus(b).to_bits(), 0.30000000000000004f64.to_bits());
    assert_eq!(a.times(b).to_bits(), (0.1f64 * 0.2f64).to_bits());
    assert_eq!(Number::from_i64(1).over(Number::from_i64(3)).to_bits(), (1.0f64 / 3.0f64).to_bits());
    assert_eq!(Number::from_i64(7).modulo(Number::from_i64(3)).to_bits(), 1.0f64.to_bits());
    assert_eq!(Number::from_i64(-7).modulo(Number::from_i64(3)).to_bits(), (-1.0f64).to_bits());
}

#[test]
fn special_values() {
    let inf = Number::infinity(false);
    let ninf = Number::infinity(true);
    assert!(inf.plus(ninf).is_nan());
    assert!(Number::zero(false).times(inf).is_nan());
    assert!(Number::zero(false).over(Number::zero(true)).is_nan());
    assert_eq!(Number::from_i64(1).over(Number::zero(true)).to_bits(), f64::NEG_INFINITY.to_bits());
    assert_eq!(Number::zero(true).plus(Number::zero(true)).to_bits(), (-0.0f64).to_bits());
    assert_eq!(Number::zero(true).plus(Number::zero(false)).to_bits(), 0.0f64.to_bits());
    assert_eq!(Number::from_i64(3).minus(Number::from_i64(3)).to_bits(), 0.0f64.to_bits());
    assert_eq!(Number::from_i64(3).negate().to_bits(), (-3.0f64).to_bits());
    assert!(Number::nan().negate().is_nan());
    let big = Number::from_bits(f64::MAX.to_bits());
    assert_eq!(big.times(Number::from_i64(2)).to_bits(), f64::INFINITY.to_bits());
    assert_eq!(big.plus(big).to_bits(), f64::INFINITY.to_bits());
    let tiny = Number::from_bits(1);
    assert_eq!(tiny.over(Number::from_i64(2)).to_bits(), 0);
    assert_eq!(tiny.times(tiny).to_bits(), 0);
}
