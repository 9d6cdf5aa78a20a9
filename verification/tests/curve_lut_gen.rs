use fw_fanctrl_rs::curve_lut_gen::{generate_fan_curve_lut, generate_fan_curve_lut_dyn, spline_lut};

/// The floating point spline over the points' temperatures.
fn float_lut(points: &[(u8, u8)]) -> Vec<u8> {
    let pt = |i: usize| -> (u8, u8) { points[i] };
    let slope = |a: (u8, u8), b: (u8, u8)| -> f64 {
        if a.0 == b.0 {
            return 0.0;
        }
        (f64::from(b.1) - f64::from(a.1)) / (f64::from(b.0) - f64::from(a.0))
    };
    let n = points.len();
    let mut tangents = vec![0.0f64; n];
    tangents[0] = slope(pt(0), pt(1));
    tangents[n - 1] = slope(pt(n - 2), pt(n - 1));
    for i in 1..n - 1 {
        tangents[i] = (slope(pt(i - 1), pt(i)) + slope(pt(i), pt(i + 1))) * 0.5;
    }
    for i in 0..n - 1 {
        let s = slope(pt(i), pt(i + 1));
        let max_t = 3.0 * s.abs();
        if s == 0.0 {
            tangents[i] = 0.0;
            tangents[i + 1] = 0.0;
        } else {
            if tangents[i].signum() != s.signum() {
                tangents[i] = 0.0;
            } else if tangents[i].abs() > max_t {
                tangents[i] = s.signum() * max_t;
            }
            if tangents[i + 1].signum() != s.signum() {
                tangents[i + 1] = 0.0;
            } else if tangents[i + 1].abs() > max_t {
                tangents[i + 1] = s.signum() * max_t;
            }
        }
    }
    let mut lut = Vec::new();
    for x in pt(0).0..=pt(n - 1).0 {
        let mut seg = 0;
        while seg < n - 1 {
            if x >= pt(seg).0 && x <= pt(seg + 1).0 {
                break;
            }
            seg += 1;
        }
        let p0 = pt(seg);
        let p1 = pt(seg + 1);
        if x == p0.0 {
            lut.push(p0.1);
        } else if x == p1.0 {
            lut.push(p1.1);
        } else {
            let m0 = tangents[seg];
            let m1 = tangents[seg + 1];
            let dx = f64::from(p1.0 - p0.0);
            let t = (f64::from(x) - f64::from(p0.0)) / dx;
            let t2 = t * t;
            let t3 = t2 * t;
            let h00 = 2.0 * t3 - 3.0 * t2 + 1.0;
            let h10 = t3 - 2.0 * t2 + t;
            let h01 = -2.0 * t3 + 3.0 * t2;
            let h11 = t3 - t2;
            let y_f = h00 * f64::from(p0.1) + h01 * f64::from(p1.1) + h10 * m0 * dx + h11 * m1 * dx;
            lut.push(y_f.round().clamp(0.0, 100.0) as u8);
        }
    }
    lut
}

const BUILTIN: &[&[(u8, u8)]] = &[
    &[(25, 10), (30, 15), (45, 30), (60, 50), (75, 80), (85, 100)],
    &[(30, 10), (35, 15), (50, 25), (65, 40), (80, 60), (85, 80), (90, 90), (92, 100)],
    &[(25, 15), (35, 30), (50, 50), (65, 75), (80, 100)],
    &[(25, 25), (30, 35), (45, 50), (60, 75), (70, 100)],
    &[(25, 35), (30, 40), (45, 50), (60, 75), (65, 100)],
    &[(0, 99), (1, 100)],
    &[(45, 0), (65, 25), (70, 35), (75, 50), (85, 100)],
    &[(50, 15), (65, 25), (70, 35), (75, 50), (85, 100)],
    &[(40, 15), (60, 30), (70, 40), (75, 80), (85, 100)],
    &[(0, 20), (40, 30), (50, 50), (60, 100)],
    &[(0, 20), (40, 50), (60, 100)],
];

#[test]
fn lut_matches_floating_point_spline_on_builtin_curves() {
    for points in BUILTIN {
        assert_eq!(generate_fan_curve_lut_dyn(points), float_lut(points), "{points:?}");
        assert_eq!(generate_fan_curve_lut(points), float_lut(points), "{points:?}");
    }
}

#[test]
fn lut_matches_floating_point_spline_on_falling_and_flat_curves() {
    let curves: &[&[(u8, u8)]] = &[
        &[(10, 100), (20, 50), (60, 0)],
        &[(10, 30), (20, 30), (30, 60), (40, 60), (50, 0)],
        &[(0, 0), (1, 100), (100, 0), (101, 100)],
        &[(5, 7), (17, 93), (18, 2), (90, 55), (150, 100)],
    ];
    for points in curves {
        assert_eq!(generate_fan_curve_lut_dyn(points), float_lut(points), "{points:?}");
    }
}

#[test]
fn lut_passes_through_points_and_stays_between_them() {
    let points = [(25u8, 10u8), (30, 15), (45, 30), (60, 50), (75, 80), (85, 100)];
    let lut = generate_fan_curve_lut_dyn(&points);
    assert_eq!(lut.len(), 85 - 25 + 1);
    for &(x, y) in &points {
        assert_eq!(lut[usize::from(x - 25)], y);
    }
    for w in points.windows(2) {
        for x in w[0].0..=w[1].0 {
            let v = lut[usize::from(x - 25)];
            assert!(w[0].1 <= v && v <= w[1].1);
        }
    }
    // rising data gives a rising table
    assert!(lut.windows(2).all(|w| w[0] <= w[1]));
}

#[test]
fn lut_exact_values() {
    // two points: the tangents equal the slope, so the spline is the line
    assert_eq!(generate_fan_curve_lut_dyn(&[(0, 0), (4, 100)]), vec![0, 25, 50, 75, 100]);
    // flat segment stays flat
    assert_eq!(generate_fan_curve_lut_dyn(&[(0, 40), (3, 40)]), vec![40, 40, 40, 40]);
}

#[test]
fn lut_reaches_last_point_near_top_of_encoding() {
    // the last temperature plus 73 is past 255
    let points = [(180u8, 0u8), (185, 100)];
    let lut = generate_fan_curve_lut(&points);
    assert_eq!(lut.len(), 6);
    assert_eq!(lut[0], 0);
    assert_eq!(lut[5], 100);
    assert_eq!(generate_fan_curve_lut_dyn(&points), lut);
    let points = [(150u8, 10u8), (200, 90)];
    let lut = generate_fan_curve_lut(&points);
    assert_eq!(lut.len(), 51);
    assert_eq!((lut[0], lut[50]), (10, 90));
    assert_eq!(lut, float_lut(&points));
}

#[test]
fn spline_lut_on_ec_points() {
    let ec = [(98u8, 10u8), (103, 15)];
    assert_eq!(spline_lut(&ec), generate_fan_curve_lut_dyn(&[(25, 10), (30, 15)]));
}
