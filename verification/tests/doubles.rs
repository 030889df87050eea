//! Doubles by their bits, held against the machine's own.

use ghostwriter::double::Double;
use ghostwriter::providers::delta_wire::truncated;
use ghostwriter::providers::embeddings::Single;

fn d(x: f64) -> Double {
    Double { bits: x.to_bits() }
}

fn f(x: Double) -> f64 {
    f64::from_bits(x.bits)
}

fn samples() -> Vec<f64> {
    let mut xs = vec![
        0.0,
        -0.0,
        1.0,
        -1.0,
        0.5,
        0.8,
        0.6,
        1.5,
        10.0,
        96.0,
        1e-300,
        5e-324,
        -5e-324,
        f64::MIN_POSITIVE,
        f64::MAX,
        f64::MIN,
        f64::INFINITY,
        f64::NEG_INFINITY,
        f64::NAN,
        -f64::NAN,
        4503599627370495.5,
        9007199254740993.0,
        9223372036854775808.0,
        18446744073709549568.0,
        18446744073709551616.0,
    ];
    // A deterministic scatter over all bit patterns.
    let mut state = 0x9e37_79b9_7f4a_7c15u64;
    for _ in 0..400 {
        state ^= state << 13;
        state ^= state >> 7;
        state ^= state << 17;
        xs.push(f64::from_bits(state));
    }
    xs
}

#[test]
fn comparisons_are_those_of_the_machine() {
    for x in samples() {
        for y in samples() {
            assert_eq!(d(x).is_below(d(y)), x < y, "{x} < {y}");
            assert_eq!(d(x).is_at_least(d(y)), x >= y, "{x} >= {y}");
        }
    }
}

#[test]
fn signs_and_classes_are_those_of_the_machine() {
    for x in samples() {
        assert_eq!(d(x).is_nan(), x.is_nan(), "{x}");
        assert_eq!(d(x).is_finite(), x.is_finite(), "{x}");
        assert_eq!(d(x).is_null(), x == 0.0, "{x}");
        assert_eq!(d(x).abs(), d(x.abs()), "{x}");
        assert_eq!(d(x).negated(), d(-x), "{x}");
    }
    assert_eq!(Double::zero(), d(0.0));
    assert_eq!(Double::one(), d(1.0));
}

#[test]
fn bounds_are_those_of_the_machine() {
    let same = |a: f64, b: f64| a == b || (a.is_nan() && b.is_nan());
    for x in samples() {
        assert!(same(f(d(x).clamped()), x.clamp(0.0, 1.0)), "{x}");
        for y in samples() {
            assert!(same(f(d(x).min_with(d(y))), x.min(y)), "min {x} {y}");
            assert!(same(f(d(x).max_with(d(y))), x.max(y)), "max {x} {y}");
        }
    }
}

#[test]
fn counts_are_cut_to_integers() {
    for x in samples() {
        let fits = x >= 0.0 && x < 18446744073709551616.0;
        assert_eq!(truncated(d(x)), fits.then_some(x as u64), "{x}");
    }
}

#[test]
fn singles_know_whether_they_are_finite() {
    for x in samples() {
        let s = x as f32;
        assert_eq!(Single { bits: s.to_bits() }.is_finite(), s.is_finite(), "{s}");
    }
}
