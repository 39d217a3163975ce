use raytracer::sphere::{choose_root, clamp_radius, Root};

fn clamped(radius: f64) -> f64 {
    f64::from_bits(clamp_radius(radius.to_bits()))
}

#[test]
fn radius_is_limited_to_zero_from_below() {
    assert_eq!(clamped(0.5), 0.5);
    assert_eq!(clamped(100.0), 100.0);
    assert_eq!(clamped(0.0), 0.0);
    assert_eq!(clamped(-0.5), 0.0);
    assert_eq!(clamped(-1e300), 0.0);
    assert_eq!(clamped(f64::NEG_INFINITY), 0.0);
    assert_eq!(clamped(f64::INFINITY), f64::INFINITY);
    assert_eq!(clamped(f64::NAN), 0.0);
    for r in [0.5f64, 100.0, 0.0, -0.5, f64::NAN, -3.0] {
        assert_eq!(clamped(r), f64::max(r, 0.0));
    }
}

#[test]
fn near_root_first() {
    assert_eq!(choose_root(true, true), Some(Root::Near));
    assert_eq!(choose_root(true, false), Some(Root::Near));
}

#[test]
fn far_root_when_near_is_out_of_bounds() {
    assert_eq!(choose_root(false, true), Some(Root::Far));
}

#[test]
fn no_root_when_both_are_out_of_bounds() {
    assert_eq!(choose_root(false, false), None);
}
