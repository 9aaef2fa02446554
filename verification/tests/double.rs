use zaimeter::chart::chart_resets;
use zaimeter::double::Double;

fn d(x: f64) -> Double {
    Double::from_bits(x.to_bits()).unwrap()
}

fn f(x: Double) -> f64 {
    f64::from_bits(x.to_bits())
}

/// Numbers over the whole range, and near every border that rounding has.
fn samples() -> Vec<f64> {
    let mut r: Vec<f64> = vec![
        0.0,
        -0.0,
        0.5,
        1.5,
        2.5,
        -0.5,
        0.49999999999999994,
        4.999,
        54.0,
        99.5,
        100.0,
        1e-320,
        5e-324,
        2.2250738585072014e-308,
        1e15,
        9007199254740991.0,
        9007199254740993.0,
        4294967295.4,
        4294967295.5,
        9.3e18,
        1e300,
        f64::MAX,
    ];
    let mut state: u64 = 0x1234_5678_9abc_def1;
    for _ in 0..400 {
        state ^= state << 13;
        state ^= state >> 7;
        state ^= state << 17;
        let x = f64::from_bits(state);
        if x.is_finite() {
            r.push(x);
        }
        r.push((state % 100_000) as f64 / 997.0);
    }
    let negated: Vec<f64> = r.iter().map(|x| -x).collect();
    r.extend(negated);
    r
}

#[test]
fn infinities_and_nans_are_refused() {
    assert!(Double::from_bits(f64::INFINITY.to_bits()).is_none());
    assert!(Double::from_bits(f64::NEG_INFINITY.to_bits()).is_none());
    assert!(Double::from_bits(f64::NAN.to_bits()).is_none());
    assert_eq!(f(d(12.25)), 12.25);
}

#[test]
fn comparison_agrees_with_the_machine() {
    let xs = samples();
    for a in xs.iter() {
        for b in xs.iter().step_by(7) {
            assert_eq!(d(*a).at_least(d(*b)), a >= b);
        }
    }
}

#[test]
fn difference_agrees_with_the_machine() {
    let xs = samples();
    for a in xs.iter().step_by(3) {
        for b in xs.iter().step_by(5) {
            for bound in [0.0, 15.0, 1e-300, a - b] {
                if bound.is_finite() {
                    assert_eq!(d(*a).difference_at_least(d(*b), d(bound)), (a - b) >= bound);
                }
            }
        }
    }
}

#[test]
fn scaling_agrees_with_the_machine() {
    for a in samples() {
        for factor in [1u32, 4, 5, 20, 4_294_967_295] {
            let product = a * factor as f64;
            assert_eq!(d(a).scaled_whole(factor), product.round() as i64);
            assert_eq!(d(a).scaled_exceeds(factor, 100), product > 100.0);
        }
    }
}

#[test]
fn percent_agrees_with_the_machine() {
    for a in samples() {
        assert_eq!(d(a).to_percent(), a.round() as u32);
    }
    assert_eq!(d(2.5).to_percent(), 3);
    assert_eq!(d(-2.5).to_percent(), 0);
}

#[test]
fn whole_numbers_convert_as_the_machine_does() {
    for n in [0u64, 1, 7, 100, 9007199254740992, 9007199254740993, 9007199254740995, u64::MAX] {
        assert_eq!(f(Double::from_u64(n)), n as f64);
    }
    for n in [0i64, -1, -7, 5, -9007199254740993, i64::MIN, i64::MAX] {
        assert_eq!(f(Double::from_i64(n)), n as f64);
    }
}

#[test]
fn sums_and_hours_agree_with_the_machine() {
    let xs: Vec<f64> = samples().into_iter().filter(|x| x.abs() < 1e60).collect();
    for a in xs.iter().step_by(3) {
        for b in xs.iter().step_by(5) {
            let sum = f(d(*a).plus(d(*b)));
            assert_eq!(sum, a + b);
        }
        assert_eq!(f(d(*a).negated()), -a);
    }
    for s in [0i64, 1, -1, 59, 3599, 3600, 7201, 12345, -98765, 18000, i64::MAX, i64::MIN] {
        assert_eq!(f(Double::hours(s)), s as f64 / 3600.0);
    }
    for s in 0..2000i64 {
        let seconds = s * 7919 - 5_000_000;
        assert_eq!(f(Double::hours(seconds)), seconds as f64 / 3600.0);
    }
}

fn expected_resets(secs: i64) -> Vec<f64> {
    let hours_until = secs as f64 / 3600.0;
    let mut hours_ago = 5.0 - hours_until;
    let mut r = Vec::new();
    while hours_ago <= 24.0 {
        if hours_ago > 0.0 {
            r.push(hours_ago);
        }
        hours_ago += 5.0;
    }
    r
}

#[test]
fn chart_resets_step_back_by_five_hours() {
    let points: Vec<f64> = chart_resets(2 * 3600).into_iter().map(f).collect();
    assert_eq!(points, vec![3.0, 8.0, 13.0, 18.0, 23.0]);
    let points: Vec<f64> = chart_resets(5 * 3600).into_iter().map(f).collect();
    assert_eq!(points, vec![5.0, 10.0, 15.0, 20.0]);
    let points: Vec<f64> = chart_resets(-20 * 3600).into_iter().map(f).collect();
    assert_eq!(points, Vec::<f64>::new());
}

#[test]
fn chart_resets_agree_with_the_machine() {
    for s in 0..500i64 {
        let secs = s * 397 - 90_000;
        let points: Vec<f64> = chart_resets(secs).into_iter().map(f).collect();
        assert_eq!(points, expected_resets(secs));
        for p in points.iter() {
            assert!(*p > 0.0 && *p <= 24.0);
        }
    }
}
