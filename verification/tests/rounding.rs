//! The facts of rounded arithmetic that laws rest on, tried on many numbers.

fn samples() -> Vec<f32> {
    let mut out = vec![
        0.0, -0.0, 1.0, -1.0, 0.5, 2.0, -2.0, 0.015, 0.02, 20.0, 60.0, 600.0, 1e-6, 1e-12, 44100.0, 1e-40, -1e-40, f32::MIN_POSITIVE,
        f32::MAX, f32::MIN, 1.0 - f32::EPSILON / 2.0, 1.0 + f32::EPSILON, 3.0e38, -3.0e38, 1.0e30, -1.0e-30, 255.0, 128.0, 0.1, 0.45,
    ];
    let mut x: u32 = 0x2545_F491;
    while out.len() < 150 {
        x ^= x << 13;
        x ^= x >> 17;
        x ^= x << 5;
        let f = f32::from_bits(x);
        if f.is_finite() {
            out.push(f);
        }
        out.push((x as f32 / u32::MAX as f32 - 0.5) * 100.0);
    }
    out
}

fn magnitude(x: f32) -> u32 {
    x.to_bits() & 0x7FFF_FFFF
}

fn within(x: f32, e: i32) -> bool {
    magnitude(x) as i64 <= (127 + e as i64) * 0x80_0000
}

fn beyond(x: f32, e: i32) -> bool {
    !x.is_nan() && magnitude(x) as i64 >= (127 + e as i64) * 0x80_0000
}

/// The least power of two that a finite number stays within.
fn above(x: f32) -> Option<i32> {
    (-126..=127).find(|&e| within(x, e))
}

/// The greatest power of two that a number is beyond.
fn below(x: f32) -> Option<i32> {
    (-126..=127).rev().find(|&e| beyond(x, e))
}

fn fits(e: i32) -> bool {
    (-126..=127).contains(&e)
}

#[test]
fn zero_is_neutral() {
    for z in [0.0f32, -0.0] {
        for x in samples() {
            assert_eq!(z * x, 0.0);
            assert_eq!(x + z, x);
            assert_eq!(z + x, x);
            assert_eq!(x - z, x);
            assert_eq!(x * 1.0, x);
            assert_eq!(x - x, 0.0);
        }
    }
}

#[test]
fn steps_stay_within_powers_of_two() {
    for a in samples() {
        for b in samples() {
            if let (Some(i), Some(j)) = (above(a), above(b)) {
                assert!(!fits(i + j) || within(a * b, i + j), "{a} * {b}");
                let m = i.max(j);
                assert!(m == 127 || (within(a + b, m + 1) && within(a - b, m + 1)), "{a} + {b}");
            }
            if let (Some(i), Some(j)) = (below(a), below(b)) {
                assert!(!fits(i + j) || beyond(a * b, i + j), "{a} * {b}");
            }
            if let (Some(i), Some(j)) = (above(a), below(b)) {
                assert!(!fits(i - j) || within(a / b, i - j), "{a} / {b}");
            }
        }
    }
}

#[test]
fn steps_keep_signs() {
    for a in samples() {
        for b in samples() {
            if (a >= 0.0 && b >= 0.0) || (a <= 0.0 && b <= 0.0) {
                assert!(a * b >= 0.0);
            }
            if (a >= 0.0 && b <= 0.0) || (a <= 0.0 && b >= 0.0) {
                assert!(a * b <= 0.0);
            }
            if a.is_sign_positive() && b.is_sign_positive() {
                assert!((a * b).is_sign_positive());
                assert!(!(b > 0.0) || (a / b).is_sign_positive());
            }
            if b > 0.0 {
                assert!(!(a >= 0.0) || a / b >= 0.0);
                assert!(!(a <= 0.0) || a / b <= 0.0);
            }
            if a < 0.0 && b.is_sign_positive() {
                assert!(a / b <= 0.0);
            }
            if a >= 0.0 {
                assert!(b <= a + b && b <= b + a);
            } else {
                assert!(a + b <= b && b + a <= b);
            }
            assert!(if a <= b { a - b <= 0.0 } else { a - b >= 0.0 });
        }
    }
    for a in samples() {
        assert_eq!(a / f32::INFINITY, 0.0);
    }
}

#[test]
fn shares_stay_shares() {
    let shares: Vec<f32> = samples().into_iter().map(f32::abs).map(|x| if x > 1.0 { x.fract() } else { x }).collect();
    for &x in &shares {
        assert!((0.0..=1.0).contains(&(1.0 - x)));
        assert!((-1.0..=0.0).contains(&(x - 1.0)));
    }
    for x in samples() {
        if x >= 1.0 {
            assert!((0.0..=1.0).contains(&(1.0 / x)));
        }
    }
    for g in samples() {
        for t in samples() {
            let (g, t) = (-g.abs(), -t.abs());
            if let (Some(i), Some(j)) = (above(g), above(t)) {
                let e = i.max(j).max(-100);
                if e > 126 {
                    continue;
                }
                for &c in &shares {
                    let next = g + (t - g) * c;
                    assert!(next <= 0.0 && within(next, e), "{g} {t} {c}");
                }
            }
        }
    }
}

#[test]
fn transcendental_steps_keep_their_ranges() {
    let mut xs = samples();
    xs.extend([f32::INFINITY, f32::NEG_INFINITY]);
    for x in xs {
        let p = 10f32.powf(x);
        if x <= 0.0 {
            assert!((0.0..=1.0).contains(&p));
            assert!((0.0..=1.0).contains(&x.exp()));
        }
        if x <= 2.0 {
            assert!(p >= 0.0 && within(p, 7));
        }
        if within(x, 5) {
            assert!(p > 0.0);
        }
        if x > 0.0 && x.is_finite() {
            assert!(within(x.log10(), 6));
        }
        let t = x.tanh();
        assert!(within(t, 0));
        assert!(!(x >= 0.0) || t >= 0.0);
        assert!(!(x <= 0.0) || t <= 0.0);
        assert!(!(x >= 1.0) || t >= 0.5);
    }
    for n in 0..=255u64 {
        assert!(n as f32 >= 0.0 && within(n as f32, 8));
    }
}

#[test]
fn steps_keep_order() {
    let mut xs = samples();
    xs.extend([f32::INFINITY, f32::NEG_INFINITY]);
    xs.sort_by(f32::total_cmp);
    for pair in xs.windows(2) {
        let (a, b) = (pair[0], pair[1]);
        assert!(10f32.powf(a) <= 10f32.powf(b));
        for c in samples() {
            assert!(c + a <= c + b);
            if c > 0.0 {
                assert!(a * c <= b * c);
                assert!(a / c <= b / c);
            }
            if c >= 0.0 && a > 0.0 {
                assert!(c / b <= c / a);
                assert!(b.is_infinite() || c * a <= c * b);
            }
        }
    }
}

#[test]
fn steps_stay_among_the_finite_numbers() {
    for a in samples() {
        for b in samples() {
            assert!(!within(a, 0) || (a * b).is_finite());
            assert!(!beyond(b, 0) || (a / b).is_finite());
            if within(a, 90) {
                assert!((a - b).is_finite());
                assert!(!beyond(b, 125) || a - b == -b);
            }
        }
    }
    let mut ends = samples();
    for m in 0..64u32 {
        ends.push(f32::from_bits(f32::MAX.to_bits() - m));
        ends.push((2 * m + 1) as f32 * 2f32.powi(103));
    }
    let mut shares: Vec<f32> = samples().into_iter().map(|x| x.abs().fract()).collect();
    shares.extend([0.0, 1.0, 1.0 - f32::EPSILON / 2.0, 1.0 - f32::EPSILON]);
    for &g in &ends {
        for &t in &ends {
            let (g, t) = (-g.abs(), -t.abs());
            for &c in &shares {
                if c < 1.0 || g == 0.0 || g <= t {
                    let next = g + (t - g) * c;
                    assert!(next.is_finite() && next <= 0.0, "{g} {t} {c}");
                }
            }
        }
    }
}

#[test]
fn double_steps_keep_order() {
    let mut xs: Vec<f64> = vec![0.0, 1.0, 0.5, 1e-300, 1e6, 1e300, f64::MAX, 3.0, 120.0, 5e-324];
    let mut x: u64 = 0x2545_F491_4F6C_DD1D;
    while xs.len() < 120 {
        x ^= x << 13;
        x ^= x >> 7;
        x ^= x << 17;
        let f = f64::from_bits(x & !(1 << 63));
        if f.is_finite() {
            xs.push(f);
        }
        xs.push((x % 1_000_000_007) as f64 / 480.0);
    }
    xs.sort_by(f64::total_cmp);
    for pair in xs.windows(2) {
        let (a, b) = (pair[0], pair[1]);
        for &c in &xs {
            assert!(c + a <= c + b && c <= c + a);
            assert!(a * c <= b * c && a * c >= 0.0);
            if c > 0.0 {
                assert!(a / c <= b / c && a / c >= 0.0);
            }
            if c >= 1.0 {
                assert!((a / c).is_finite());
                assert!(a < 1.0 || a * c >= 1.0);
            }
        }
    }
    let mut ns: Vec<u64> = vec![0, 1, 2, 1 << 53, (1 << 53) + 1, (1 << 53) + 2, u64::MAX - 1, u64::MAX];
    ns.sort();
    assert!(ns.windows(2).all(|p| p[0] as f64 <= p[1] as f64));
    assert!((1u64 as f64) >= 1.0);
    assert!([24.0f32, 25.0, 29.97003, 30.0].iter().all(|&r| r as f64 >= 1.0));
}
