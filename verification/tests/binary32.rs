use svg2pdf::Binary32;

fn single(value: f32) -> Binary32 {
    Binary32 { bits: value.to_bits() }
}

/// Positive finite numbers: the ends of the range, and where significands carry.
fn corners() -> Vec<f32> {
    let mut bits: Vec<u32> = vec![1, 2, 3, 0x7f_fffe, 0x7f_ffff, 0x80_0000, 0x80_0001];
    for exponent in [1u32, 2, 23, 24, 60, 100, 125, 126, 127, 128, 140, 149, 150, 151, 181, 182, 200, 253, 254] {
        for fraction in [0u32, 1, 0x3f_ffff, 0x40_0000, 0x40_0001, 0x7f_fffe, 0x7f_ffff] {
            bits.push(exponent << 23 | fraction);
        }
    }
    bits.into_iter().map(f32::from_bits).collect()
}

fn random(seed: &mut u64) -> f32 {
    *seed = seed.wrapping_mul(6364136223846793005).wrapping_add(1442695040888963407);
    let bits = (*seed >> 33) as u32 % 0x7f80_0000;
    f32::from_bits(if bits == 0 { 1 } else { bits })
}

fn check(a: f32, b: f32) {
    assert_eq!(single(a).times(single(b)).bits, (a * b).to_bits(), "{} * {}", a, b);
    assert_eq!(single(a).over(single(b)).bits, (a / b).to_bits(), "{} / {}", a, b);
    assert_eq!(single(a).round_to_u32(), a.round() as u32, "{}", a);
}

#[test]
fn arithmetic_agrees_at_the_corners() {
    for a in corners() {
        for b in corners() {
            check(a, b);
        }
    }
}

#[test]
fn arithmetic_agrees_on_random_numbers() {
    let mut seed = 42;
    for _ in 0..100_000 {
        check(random(&mut seed), random(&mut seed));
    }
}

#[test]
fn arithmetic_agrees_on_common_factors() {
    let mut seed = 7;
    for _ in 0..20_000 {
        let a = random(&mut seed);
        for b in [72.0, 1.5, 96.0, 300.0, 0.75, 1.0, 1.0 / 3.0] {
            check(a, b);
            check(b, a);
        }
    }
}

#[test]
fn infinite_factors_stay_infinite() {
    let infinity = single(f32::INFINITY);
    assert_eq!(infinity.times(single(1e-40)), infinity);
    assert_eq!(single(3.0).times(infinity), infinity);
    assert_eq!(single(1e30).times(single(1e30)), infinity);
    assert_eq!(single(72.0).over(single(1e-45)), infinity);
    assert_eq!(single(1e-30).times(single(1e-30)), single(0.0));
}

#[test]
fn ties_go_to_even() {
    let one = f32::from_bits(0x3f80_0001);
    assert_eq!(single(one).times(single(1.5)).bits, 0x3fc0_0002);
    assert_eq!(single(f32::from_bits(3)).times(single(0.5)).bits, 2);
    assert_eq!(single(f32::from_bits(1)).times(single(0.5)).bits, 0);
    assert_eq!(single(2.5).round_to_u32(), 3);
    assert_eq!(single(0.49999997).round_to_u32(), 0);
    assert_eq!(single(4294967040.0).round_to_u32(), 4294967040);
    assert_eq!(single(4294967296.0).round_to_u32(), u32::MAX);
}

#[test]
fn positive_finite_numbers_are_recognised() {
    for value in [1.0, f32::MAX, f32::MIN_POSITIVE, f32::from_bits(1)] {
        assert!(single(value).is_finite_above_zero());
    }
    for value in [0.0, -0.0, -1.0, f32::NAN, -f32::NAN, f32::INFINITY, f32::NEG_INFINITY] {
        assert!(!single(value).is_finite_above_zero());
    }
}

#[test]
fn finite_values_are_told_from_others() {
    for value in [0.0, -0.0, 1.0, -2.5, f32::MAX, f32::MIN, f32::from_bits(1)] {
        assert!(Binary32 { bits: value.to_bits() }.has_finite_value());
    }
    for value in [f32::INFINITY, f32::NEG_INFINITY, f32::NAN, -f32::NAN] {
        assert!(!Binary32 { bits: value.to_bits() }.has_finite_value());
    }
}
