use raytracer::patterns::{checker_uses_first, ring_uses_first, striped_uses_first};

fn floor_of(v: f64) -> i64 {
    v.floor() as i64
}

#[test]
fn stripes_alternate_in_x() {
    // Constant across each unit interval, first color on the even ones.
    assert!(striped_uses_first(floor_of(0.0)));
    assert!(striped_uses_first(floor_of(0.9)));
    assert!(!striped_uses_first(floor_of(1.0)));
    assert!(!striped_uses_first(floor_of(-0.1)));
    assert!(!striped_uses_first(floor_of(-1.0)));
    assert!(striped_uses_first(floor_of(-1.1)));
}

#[test]
fn checkers_repeat_in_each_axis() {
    assert!(checker_uses_first(floor_of(0.0), 0, 0));
    assert!(checker_uses_first(floor_of(0.99), 0, 0));
    assert!(!checker_uses_first(floor_of(1.01), 0, 0));
    assert!(!checker_uses_first(0, floor_of(1.01), 0));
    assert!(!checker_uses_first(0, 0, floor_of(1.01)));
    assert!(checker_uses_first(floor_of(1.01), floor_of(1.01), 0));
}

#[test]
fn rings_extend_in_both_x_and_z() {
    let radius = |x: f64, z: f64| -> i64 { (x * x + z * z).sqrt().floor() as i64 };

    assert!(ring_uses_first(radius(0.0, 0.0)));
    assert!(!ring_uses_first(radius(1.0, 0.0)));
    assert!(!ring_uses_first(radius(0.0, 1.0)));
    // (0.708, 0.708) lies just past a distance of 1 from the axis.
    assert!(!ring_uses_first(radius(0.708, 0.708)));
}
