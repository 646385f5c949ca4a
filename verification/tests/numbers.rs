use piano::delay::to_index;
use piano::number::{Double, Single, is_on, number, one, zero};
use piano::order::stable_order;
use piano::quietest::find_quietest;
use piano::rng::{SEED, advance, xorshift};

fn single(x: f32) -> Single {
    Single { bits: x.to_bits() }
}

fn double(x: f64) -> Double {
    Double { bits: x.to_bits() }
}

const SAMPLES: [f32; 24] = [
    0.0, -0.0, 1.0, -1.0, 0.5, 1.5, -2.5, 3.7, 1e-40, -1e-40, 1e-12, 0.999_999_94, 16777215.5, 16777216.0, 3.0e9,
    1.0e18, 1.9e19, 1.0e30, -1.0e30, f32::MAX, f32::INFINITY, f32::NEG_INFINITY, f32::NAN, f32::MIN_POSITIVE,
];

#[test]
fn comparisons_agree_with_floating_point() {
    for a in SAMPLES {
        for b in SAMPLES {
            assert_eq!(single(a).is_below(single(b)), a < b);
            assert_eq!(single(a).is_at_most(single(b)), a <= b);
            assert_eq!(single(a).rank().cmp(&single(b).rank()), a.total_cmp(&b));
            let (x, y) = (a as f64, b as f64);
            assert_eq!(double(x).is_below(double(y)), x < y);
            assert_eq!(double(x).rank().cmp(&double(y).rank()), x.total_cmp(&y));
        }
        assert_eq!(single(a).is_nan(), a.is_nan());
        assert_eq!(single(a).is_zero(), a == 0.0);
    }
}

#[test]
fn bounds_agree_with_floating_point() {
    for a in SAMPLES {
        for b in SAMPLES {
            let same = |x: Single, y: f32| f32::from_bits(x.bits) == y || (y.is_nan() && x.is_nan());
            assert!(same(single(a).lesser(single(b)), a.min(b)));
            assert!(same(single(a).greater(single(b)), a.max(b)));
            let (x, y) = (a as f64, b as f64);
            let same_wide = |p: Double, q: f64| f64::from_bits(p.bits) == q || (q.is_nan() && p.is_nan());
            assert!(same_wide(double(x).lesser(double(y)), x.min(y)));
            assert!(same_wide(double(x).greater(double(y)), x.max(y)));
        }
        let c = single(a).clamped(single(-1.0), single(1.0));
        let expected = a.clamp(-1.0, 1.0);
        assert!(f32::from_bits(c.bits) == expected || (expected.is_nan() && c.is_nan()));
        assert_eq!(single(a).negated(), single(-a));
        assert_eq!(single(a).absolute(), single(a.abs()));
    }
}

#[test]
fn whole_parts_agree_with_floating_point() {
    for x in SAMPLES {
        assert_eq!(single(x).to_whole(), x as u64);
        assert_eq!(to_index(single(x)), x as usize);
        let y = x as f64;
        assert_eq!(double(y).to_whole(), y as u64);
        assert_eq!(double(y).to_ceiling(), y.ceil() as u64);
    }
    for y in [0.1f64, 1.000_000_1, 4_503_599_627_370_495.5, 9.0e15, 1.8e19, 1.9e19, 1e-300, 352799.999] {
        assert_eq!(double(y).to_whole(), y as u64);
        assert_eq!(double(y).to_ceiling(), y.ceil() as u64);
    }
}

#[test]
fn controls_are_on_from_one_half() {
    assert!(is_on(single(0.5)));
    assert!(is_on(single(1.0)));
    assert!(!is_on(single(0.499_999_97)));
    assert!(!is_on(single(f32::NAN)));
    assert_eq!(one(), single(1.0));
    assert_eq!(zero(), single(0.0));
    assert_eq!(number(0x4049_0FDB), single(std::f32::consts::PI));
}

#[test]
fn the_generator_shifts_and_advances() {
    let mut x: u32 = SEED;
    let mut y: u32 = 0x1234_5678;
    for _ in 0..100 {
        y ^= y << 13;
        y ^= y >> 17;
        y ^= y << 5;
        x = xorshift(x);
        assert_eq!(x, y);
        assert_ne!(x, 0);
        assert_eq!(advance(x), x.wrapping_mul(0x9E37_79B9).wrapping_add(1));
        assert_ne!(advance(x), x);
    }
    assert_eq!(xorshift(0), 0);
}

#[test]
fn ordering_is_stable() {
    let keys: [u64; 8] = [5, 3, 5, 1, 3, 5, 0, 1];
    assert_eq!(stable_order(&keys), vec![6, 3, 7, 1, 4, 0, 2, 5]);
    assert_eq!(stable_order(&[]), Vec::<usize>::new());
    let mut x: u32 = 1;
    let many: Vec<u64> = (0..500)
        .map(|_| {
            x = xorshift(x);
            (x % 50) as u64
        })
        .collect();
    let mut expected: Vec<usize> = (0..500).collect();
    expected.sort_by_key(|&i| many[i]);
    assert_eq!(stable_order(&many), expected);
}

#[test]
fn the_first_of_the_lowest_is_found() {
    let levels = [single(3.0), single(1.0), single(-0.0), single(0.0), single(-0.0), single(-5.0)];
    assert_eq!(find_quietest(&levels, 5), 2);
    assert_eq!(find_quietest(&levels, 6), 5);
    assert_eq!(find_quietest(&levels, 1), 0);
}
