use quilt_mesh::double::Double;

fn double(x: f64) -> Double {
    Double { bits: x.to_bits() }
}

#[test]
fn comparisons_are_those_of_floating_point() {
    let numbers = [
        0.0,
        -0.0,
        1.0,
        -1.0,
        0.85,
        0.849_999_999_999_999_9,
        5e-324,
        -5e-324,
        f64::MAX,
        f64::MIN,
        f64::INFINITY,
        f64::NEG_INFINITY,
        f64::NAN,
    ];
    for a in numbers {
        for b in numbers {
            assert_eq!(double(a).gt(double(b)), a > b, "{} > {}", a, b);
            assert_eq!(double(a).ge(double(b)), a >= b, "{} >= {}", a, b);
            let most = f64::from_bits(double(a).max(double(b)).bits);
            assert!(most == a.max(b) || (most.is_nan() && a.max(b).is_nan()), "{} {}", a, b);
        }
    }
}

#[test]
fn parts_of_1024_are_exact() {
    for n in [0u64, 1, 2, 3, 1023, 1024, 1025, 61_440, 133_120, 0x1f_ffff_ffff_ffff] {
        assert_eq!(Double::from_1024ths(n).bits, (n as f64 / 1024.0).to_bits(), "{}", n);
    }
    let mut n: u64 = 1;
    while n < 0x20_0000_0000_0000 {
        assert_eq!(Double::from_1024ths(n).bits, (n as f64 / 1024.0).to_bits());
        assert_eq!(Double::from_1024ths(n - 1).bits, ((n - 1) as f64 / 1024.0).to_bits());
        n = n * 3 + 1;
    }
}
