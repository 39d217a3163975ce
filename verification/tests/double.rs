use raytracer::double::{at_most, less, ordered_key, to_i16};

fn key(x: f64) -> Option<i64> {
    ordered_key(x.to_bits())
}

#[test]
fn keys_of_simple_numbers() {
    assert_eq!(key(0.0), Some(0));
    assert_eq!(key(-0.0), Some(0));
    assert_eq!(key(1.0), Some(0x3FF0_0000_0000_0000));
    assert_eq!(key(-1.0), Some(-0x3FF0_0000_0000_0000));
    assert_eq!(key(2.0), Some(0x4000_0000_0000_0000));
    assert_eq!(key(f64::MAX), Some(0x7FEF_FFFF_FFFF_FFFF));
    assert_eq!(key(f64::INFINITY), Some(0x7FF0_0000_0000_0000));
    assert_eq!(key(f64::NEG_INFINITY), Some(-0x7FF0_0000_0000_0000));
    assert_eq!(ordered_key(1), Some(1));
    assert_eq!(ordered_key(0x8000_0000_0000_0001), Some(-1));
}

#[test]
fn not_a_number_has_no_key() {
    assert_eq!(key(f64::NAN), None);
    assert_eq!(key(-f64::NAN), None);
    assert_eq!(ordered_key(0x7FF0_0000_0000_0001), None);
    assert_eq!(ordered_key(0xFFF0_0000_0000_0001), None);
    assert_eq!(ordered_key(u64::MAX), None);
    assert_eq!(ordered_key(0x7FFF_FFFF_FFFF_FFFF), None);
}

#[test]
fn keys_compare_as_numbers_do() {
    let samples = [
        f64::NEG_INFINITY,
        f64::MIN,
        -1.0e300,
        -123456.789,
        -2.0,
        -1.0000000000000002,
        -1.0,
        -0.5,
        -f64::MIN_POSITIVE,
        -5e-324,
        -0.0,
        0.0,
        5e-324,
        1e-310,
        f64::MIN_POSITIVE,
        1e-100,
        0.001,
        0.5,
        0.999,
        1.0,
        1.0000000000000002,
        2.0,
        3.5,
        255.0,
        1.0e300,
        f64::MAX,
        f64::INFINITY,
    ];
    for a in samples {
        for b in samples {
            let ka = key(a).unwrap();
            let kb = key(b).unwrap();
            assert_eq!(a < b, ka < kb, "{} < {}", a, b);
            assert_eq!(a == b, ka == kb, "{} == {}", a, b);
            assert_eq!(a > b, ka > kb, "{} > {}", a, b);
        }
    }
}

#[test]
fn less_and_at_most_agree_with_real_comparisons() {
    let samples = [
        f64::NEG_INFINITY, -f64::MAX, -2.5, -0.0, 0.0, 5e-324, 1.0, 1e300, f64::INFINITY, f64::NAN,
    ];
    for a in samples {
        for b in samples {
            assert_eq!(less(a.to_bits(), b.to_bits()), a < b, "{} < {}", a, b);
            assert_eq!(at_most(a.to_bits(), b.to_bits()), a <= b, "{} <= {}", a, b);
        }
    }
}

#[test]
fn whole_part_of_simple_numbers() {
    assert_eq!(to_i16(0.0f64.to_bits()), 0);
    assert_eq!(to_i16(0.999f64.to_bits()), 0);
    assert_eq!(to_i16(1.0f64.to_bits()), 1);
    assert_eq!(to_i16(254.745f64.to_bits()), 254);
    assert_eq!(to_i16((-254.745f64).to_bits()), -254);
    assert_eq!(to_i16(32767.99f64.to_bits()), 32767);
    assert_eq!(to_i16(1e9f64.to_bits()), i16::MAX);
    assert_eq!(to_i16((-1e9f64).to_bits()), i16::MIN);
    assert_eq!(to_i16(f64::NAN.to_bits()), 0);
}

#[test]
fn whole_part_matches_std_conversion() {
    let mut x = 1.0e-3f64;
    while x < 1.0e6 {
        assert_eq!(to_i16(x.to_bits()), x as i16, "{}", x);
        assert_eq!(to_i16((-x).to_bits()), (-x) as i16, "{}", -x);
        x *= 1.0173;
    }
    for i in -33000..33000 {
        for off in [0.0, 0.25, 0.5, 0.999999] {
            let v = i as f64 + off;
            assert_eq!(to_i16(v.to_bits()), v as i16, "{}", v);
        }
    }
    for v in [f64::MAX, f64::MIN, f64::INFINITY, f64::NEG_INFINITY, f64::MIN_POSITIVE, 5e-324, -0.0] {
        assert_eq!(to_i16(v.to_bits()), v as i16, "{}", v);
    }
}
