//! Comparisons, limits and texts.

use automass::kf::{is_diverged, tilt};
use automass::rail::{
    hold_reading, is_any_below, is_gate_held, limit_to_rail, saturate, PerAxis, D_MAX, D_MIN,
};
use automass::scalar::{is_all_finite, Scalar};
use automass::tracking::{
    aim_motors, integrate, measure_distances, measure_room, move_each, tracking_error,
};
use automass::text::{append_decimal, append_hex_list, digit};

fn scalar(x: f64) -> Scalar {
    Scalar { bits: x.to_bits() }
}

fn per_axis(d: [f64; 4]) -> PerAxis {
    d.map(scalar)
}

const SAMPLES: [f64; 14] = [
    0.0,
    -0.0,
    1.0,
    -1.0,
    0.1,
    -0.1,
    f64::MIN_POSITIVE,
    -5e-324,
    5e-324,
    f64::MAX,
    f64::MIN,
    f64::INFINITY,
    f64::NEG_INFINITY,
    f64::NAN,
];

#[test]
fn comparisons_agree_with_the_machine() {
    for a in SAMPLES {
        assert_eq!(scalar(a).is_finite(), a.is_finite());
        assert_eq!(scalar(a).is_nan(), a.is_nan());
        assert_eq!(scalar(a).neg(), scalar(-a));
        assert_eq!(scalar(a).abs(), scalar(a.abs()));
        for b in SAMPLES {
            assert_eq!(scalar(a).less(scalar(b)), a < b, "{a} < {b}");
            assert_eq!(scalar(a).less_or_equal(scalar(b)), a <= b, "{a} <= {b}");
        }
    }
}

#[test]
fn clamp_agrees_with_the_machine() {
    for x in SAMPLES {
        for (lo, hi) in [(-1.0, 1.0), (0.0, 0.0), (-0.0, 0.0), (f64::MIN, f64::MAX)] {
            assert_eq!(
                scalar(x).clamp(scalar(lo), scalar(hi)).bits,
                x.clamp(lo, hi).to_bits(),
                "{x} in {lo}..={hi}"
            );
        }
    }
}

#[test]
fn rail_limits_are_those_of_the_rails() {
    assert_eq!(f64::from_bits(D_MIN), 0.001);
    assert_eq!(f64::from_bits(D_MAX), 0.495);
    let d = saturate(per_axis([-1.0, 0.2, 0.6, f64::INFINITY]));
    assert_eq!(d, per_axis([0.001, 0.2, 0.495, 0.495]));
    assert_eq!(saturate(d), d);
    assert_eq!(limit_to_rail(scalar(0.001)), scalar(0.001));
}

#[test]
fn bad_readings_leave_the_previous_position() {
    let previous = scalar(0.3);
    assert_eq!(hold_reading(previous, None), previous);
    assert_eq!(hold_reading(previous, Some(scalar(f64::NAN))), previous);
    assert_eq!(hold_reading(previous, Some(scalar(f64::INFINITY))), previous);
    assert_eq!(hold_reading(previous, Some(scalar(0.1))), scalar(0.1));
}

#[test]
fn gate_looks_at_the_largest_gap() {
    let tol = scalar(0.03);
    assert!(!is_gate_held(per_axis([0.0, 0.03, -0.03, 0.01]), tol));
    assert!(is_gate_held(per_axis([0.0, 0.0, -0.0301, 0.0]), tol));
    assert!(!is_gate_held(per_axis([f64::NAN; 4]), tol));
    assert!(!is_gate_held(per_axis([1.0; 4]), scalar(f64::NAN)));
    // A negative tolerance holds even without any gap.
    assert!(is_gate_held(per_axis([0.0; 4]), scalar(-0.001)));
}

#[test]
fn thresholds_are_strict() {
    let min = scalar(0.01);
    assert!(!is_any_below(per_axis([0.01; 4]), min));
    assert!(is_any_below(per_axis([0.01, 0.01, 0.0099, 0.01]), min));
    assert!(!is_any_below(per_axis([f64::NAN; 4]), min));
}

/// The guard of an estimate against the previous one.
fn diverged(x: [f64; 5], prev: Option<[f64; 5]>) -> bool {
    let prev = prev.map(|p| p.map(scalar));
    is_diverged(&x.map(scalar), prev.as_ref().map(|p| &p[..]))
}

#[test]
fn diverged_on_nan_and_large_angle_and_jump() {
    let bad_nan = [f64::NAN, 0.0, 0.0, 0.0, 0.0];
    assert!(diverged(bad_nan, None));

    let bad_angle = [60f64.to_radians(), 0.0, 0.0, 0.0, 0.0];
    assert!(diverged(bad_angle, None));

    let prev = [0.0, 0.0, 0.0, 0.0, 0.0];
    let jumped = [25f64.to_radians(), 0.0, 0.0, 0.0, 0.0];
    assert!(diverged(jumped, Some(prev)));

    let fine = [1f64.to_radians(), 0.0, 0.0, 0.0, 0.0];
    assert!(!diverged(fine, Some(prev)));
}

#[test]
fn divergence_limits_are_inclusive_and_two_sided() {
    // What is exactly at a limit in degrees passes, what is beyond does not.
    let mut seen = [0, 0];
    for limit in [50.0f64, 20.0] {
        let centre = limit.to_radians().to_bits();
        for bits in centre - 4..=centre + 4 {
            for sign in [1.0, -1.0] {
                let x = [0.0, sign * f64::from_bits(bits), 0.0, 0.0, 0.0];
                let beyond = x[1].to_degrees().abs() > limit;
                let prev = if limit == 20.0 { Some([0.0; 5]) } else { None };
                assert_eq!(diverged(x, prev), beyond);
                seen[usize::from(beyond)] += 1;
            }
        }
    }
    assert!(seen[0] > 0 && seen[1] > 0);
    assert!(!diverged([0.5; 5], None));
    let mut rate = [0.0; 5];
    rate[4] = f64::NEG_INFINITY;
    assert!(diverged(rate, None));
    assert!(is_all_finite(&[scalar(0.0); 5]));
    assert!(!is_all_finite(&rate.map(scalar)));
    assert_eq!(tilt(&[scalar(0.1), scalar(-0.2)]), [0.1f64, -0.2].map(|a| scalar(a.to_degrees())));
}

/// Numbers of every kind: zeros, subnormal and normal ones, ties, infinities, NaN.
fn operands() -> Vec<f64> {
    let mut v = SAMPLES.to_vec();
    v.extend([
        0.5, 1.5, 2.0, 3.0, 0.2, 0.3, 1e-300, 1e300, 1e16, 9007199254740993.0, 4503599627370496.5,
        2.2250738585072011e-308, 1.1125369292536007e-308, 1e-310, -3e-320, 1.7976931348623155e308,
        8.98846567431158e307, 1.4916681462400413e-154, 2.0e-162, 1.0000000000000002,
        0.9999999999999999, 4.9e-324, 5.960464477539063e-8, 6.123e-17, -0.007, 180.0, 1e-12,
    ]);
    // A fixed sequence that wanders over all bit patterns.
    let mut bits = 0x9E37_79B9_7F4A_7C15u64;
    for i in 0..120 {
        bits = bits.wrapping_mul(0x5851_F42D_4C95_7F2D).wrapping_add(0x1405_7B7E_F767_814F);
        v.push(f64::from_bits(bits));
        // The same with an exponent near that of one.
        v.push(f64::from_bits(bits & 0x800F_FFFF_FFFF_FFFF | (1000 + i % 47) << 52));
    }
    v
}

/// The same number, where all NaN are the same.
fn assert_same(got: Scalar, expected: f64, what: &str, x: f64, y: f64) {
    if expected.is_nan() {
        assert!(f64::from_bits(got.bits).is_nan(), "{x:e} {what} {y:e}");
    } else {
        assert_eq!(got, scalar(expected), "{x:e} {what} {y:e}");
    }
}

#[test]
fn arithmetic_is_that_of_the_machine() {
    let operands = operands();
    for &x in &operands {
        for &y in &operands {
            assert_same(scalar(x).add(scalar(y)), x + y, "+", x, y);
            assert_same(scalar(x).sub(scalar(y)), x - y, "-", x, y);
            assert_same(scalar(x).mul(scalar(y)), x * y, "*", x, y);
            assert_same(scalar(x).div(scalar(y)), x / y, "/", x, y);
        }
        let rounded = x.round();
        assert_eq!(scalar(x).to_nearest_i32(), rounded as i32, "{x:e}");
        assert_same(scalar(x).to_degrees(), x.to_degrees(), "in", x, 0.0);
        assert_same(scalar(x).to_radians(), x.to_radians(), "in", x, 0.0);
    }
}

#[test]
fn integers_and_numbers_convert() {
    let integers = [
        0, 1, -1, 2, 3, 1000, -16383, 32767, -32768, 4294967295, 1 << 53, (1 << 53) + 1,
        -(1 << 53) - 3, i64::MAX, i64::MIN, i64::MAX - 511, i64::MAX - 512,
    ];
    for n in integers {
        assert_eq!(Scalar::from_integer(n), scalar(n as f64), "{n}");
        assert_eq!(Scalar::from_natural(n as u64), scalar(n as u64 as f64), "{n}");
    }
    let halves = [
        0.5, -0.5, 0.49999999999999994, 1.5, 2.5, -2.5, 2147483646.5, 2147483647.4, 2147483647.5,
        2147483648.0, -2147483648.0, -2147483648.4, -2147483648.5, -2147483649.0, 2147483648.5,
    ];
    for x in halves {
        assert_eq!(scalar(x).to_nearest_i32(), x.round() as i32, "{x}");
    }
    assert_eq!(scalar(1.0).div(scalar(3.0)), scalar(0.3333333333333333));
    assert_eq!(scalar(1.0).div(scalar(-0.0)), scalar(f64::NEG_INFINITY));
    assert_eq!(scalar(-3.0).div(scalar(f64::INFINITY)), scalar(-0.0));
}

#[test]
fn sums_and_products_round_to_even() {
    let one = scalar(1.0);
    let half_ulp = scalar(1.1102230246251565e-16);
    assert_eq!(one.add(half_ulp), one);
    assert_eq!(scalar(1.0000000000000002).add(half_ulp), scalar(1.0000000000000004));
    assert_eq!(scalar(f64::MAX).add(scalar(f64::MAX)), scalar(f64::INFINITY));
    assert_eq!(scalar(5e-324).mul(scalar(0.5)), scalar(0.0));
    assert_eq!(scalar(-5e-324).mul(scalar(0.75)), scalar(-5e-324));
    assert_eq!(scalar(0.1).add(scalar(0.2)), scalar(0.30000000000000004));
    assert_eq!(scalar(-0.0).add(scalar(-0.0)), scalar(-0.0));
    assert_eq!(scalar(1.0).sub(scalar(1.0)), scalar(0.0));
}

#[test]
fn tracking_goes_by_measured_minus_commanded() {
    let gap = measure_distances(per_axis([0.2, 0.25, 0.3, 0.1]), per_axis([0.2; 4]));
    assert_eq!(gap, per_axis([0.0, 0.25 - 0.2, 0.3 - 0.2, 0.1 - 0.2]));
    assert!(is_gate_held(gap, scalar(0.09)));
    assert!(!is_gate_held(gap, scalar(0.1)));
    let targets = aim_motors(per_axis([0.1, 0.2, 0.3, 0.4]), per_axis([0.5; 4]));
    assert_eq!(targets, per_axis([0.1, 0.2 - 0.5, 0.3, 0.4]));
    let moved = move_each(per_axis([0.1, 0.2, 0.3, 0.4]), per_axis([0.2; 4]));
    assert_eq!(moved, per_axis([0.1 + 0.2, 0.4, 0.5, 0.4 + 0.2]));
    let room = measure_room(per_axis([0.1, 0.2, 0.3, 0.4]));
    let mean = (0.1 + 0.2 + 0.3 + 0.4) / 4.0;
    assert_eq!(room, (scalar(0.001 - mean), scalar(0.495 - mean)));
    let e = tracking_error(&[scalar(0.1), scalar(-0.2)], [scalar(2.0), scalar(0.0)]);
    assert_eq!(e, [scalar(0.1 - 2f64.to_radians()), scalar(-0.2)]);
    let e_int = integrate([scalar(1.0), scalar(-1.0)], e, scalar(3.25));
    assert_eq!(
        e_int,
        [scalar(1.0 + 3.25 * (0.1 - 2f64.to_radians())), scalar(-1.0 + 3.25 * -0.2)]
    );
}

#[test]
fn numbers_in_messages() {
    for n in [0u64, 7, 10, 99, 100, 115_200, u64::MAX] {
        let mut s = String::from("n=");
        append_decimal(&mut s, n);
        assert_eq!(s, format!("n={n}"));
    }
    for bytes in [vec![], vec![0xFB], vec![0xFB, 0x01, 0x00, 0xA9]] {
        let mut s = String::new();
        append_hex_list(&mut s, &bytes);
        assert_eq!(s, format!("{bytes:02X?}"));
    }
    assert_eq!(digit(15), "F");
}
