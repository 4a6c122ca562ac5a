use limitcut::binary64::Binary64;

fn held(n: f64) -> Binary64 {
    Binary64 { bits: n.to_bits() }
}

/// Whether two numbers are the same, to the bit, or both none.
fn same(a: Binary64, b: f64) -> bool {
    a.bits == b.to_bits() || (f64::from_bits(a.bits).is_nan() && b.is_nan())
}

/// Numbers of all kinds, small and large.
fn numbers() -> Vec<f64> {
    let mut all = vec![
        0.0,
        1.0,
        0.1,
        0.2,
        0.3,
        0.5,
        1.5,
        2.5,
        4.0,
        6.0,
        60.0,
        100.0,
        16_000.0,
        1_000_000.0,
        59.999999,
        9007199254740991.0,
        9007199254740992.0,
        9007199254740993.0,
        36028797018963968.0,
        36028797018963976.0,
        1e22,
        1e300,
        f64::MAX,
        f64::MAX / 2.0,
        f64::MIN_POSITIVE,
        f64::MIN_POSITIVE / 2.0,
        f64::EPSILON,
        5e-324,
        1e-320,
        f64::INFINITY,
        f64::NAN,
    ];
    // a row of bits without order
    let mut x = 0x9e37_79b9_7f4a_7c15u64;
    for i in 0..120u64 {
        x ^= x << 13;
        x ^= x >> 7;
        x ^= x << 17;
        all.push(f64::from_bits(x % (1 << 63)));
        // of the size of times
        all.push((x >> 40) as f64 / (1 + i * i) as f64);
    }
    let negative: Vec<f64> = all.iter().map(|n| -n).collect();
    all.extend(negative);
    all
}

#[test]
fn arithmetic_is_that_of_floats() {
    let all = numbers();
    for &a in &all {
        assert!(same(held(a).hundredfold(), a * 100.0), "{a:e} * 100");
        assert!(same(held(a).opposite(), -a), "-{a:e}");
        assert_eq!(held(a).is_above_zero(), a > 0.0);
        for &b in &all {
            assert!(same(held(a).plus(held(b)), a + b), "{a:e} + {b:e}");
            assert!(same(held(a).minus(held(b)), a - b), "{a:e} - {b:e}");
            assert!(same(held(a).divide(held(b)), a / b), "{a:e} / {b:e}");
            assert_eq!(held(a).is_less(held(b)), a < b, "{a:e} < {b:e}");
        }
    }
}

#[test]
fn sums_are_rounded_to_even() {
    let one = held(1.0);
    let half = held(f64::EPSILON / 2.0);
    assert_eq!(one.plus(half), one);
    let next = held(1.0 + f64::EPSILON);
    assert_eq!(next.plus(half), held(1.0 + 2.0 * f64::EPSILON));
    assert_eq!(held(0.1).plus(held(0.2)), held(0.30000000000000004));
    // a power of two, from which something far smaller is taken
    for k in [52, 53, 54, 55, 60, 64, 65, 66, 70, 200] {
        let tiny = 0.5f64.powi(k);
        assert_eq!(one.minus(held(tiny)), held(1.0 - tiny));
        assert_eq!(one.plus(held(tiny)), held(1.0 + tiny));
    }
}

#[test]
fn whole_numbers() {
    for n in [
        0u64,
        1,
        4,
        60,
        16_000,
        (1 << 53) - 1,
        1 << 53,
        (1 << 53) + 1,
        (1 << 54) + 2,
        u64::MAX - 1024,
        u64::MAX,
    ] {
        assert_eq!(Binary64::whole(n), held(n as f64));
    }
    assert_eq!(Binary64::zero(), held(0.0));
}

#[test]
fn at_least_zero() {
    assert_eq!(held(-1.0).or_zero(), held(0.0));
    assert_eq!(held(f64::NAN).or_zero(), held(0.0));
    assert_eq!(held(f64::NEG_INFINITY).or_zero(), held(0.0));
    assert_eq!(held(f64::INFINITY).or_zero(), held(f64::INFINITY));
    assert_eq!(held(5e-324).or_zero(), held(5e-324));
}

#[test]
fn numbers_are_written_as_std_writes_them() {
    let mut all = numbers();
    all.extend([
        0.25, 0.75, 59.96, 123.456, 1e-9, 0.0000004, 0.0000005, 0.0000006, 99999.999999, 0.04,
        12.34, 0.05, 0.15, 0.45, 1.005, 2.675, 0.0005, 0.0625, 0.000001,
    ]);
    for n in all {
        let t = held(n);
        assert_eq!(t.fixed(6), format!("{n:.6}"));
        assert_eq!(t.fixed(3), format!("{n:.3}"));
        assert_eq!(t.fixed(1), format!("{n:.1}"));
        assert_eq!(t.fixed(9), format!("{n:.9}"));
        assert_eq!(t.floor(), format!("{:.0}", n.floor()));
        assert_eq!(t.sixtieths(), format!("{:02.0}", n % 60.0), "{n:e}");
    }
}

#[test]
fn whole_parts() {
    for n in [0.0, 0.99, 1.0, 28.999999999999996, 99.99999, 9007199254740991.0, 5e-324] {
        assert_eq!(held(n).truncated(), n as u64);
    }
}
