use raytracer::intersections::{
    calculate_n1_n2, hit, is_shadowed, sort_intersections, Intersection, Medium,
};

// In these scenes a shape is a bare identity token; the numeric scenes of a
// renderer map each shape to one and each distance along a ray to an
// order-preserving integer key.
const SPHERE: u128 = 41;

#[test]
fn hits_when_all_intersections_have_positive_t() {
    let i1 = Intersection::new(1, SPHERE);
    let i2 = Intersection::new(2, SPHERE);

    assert_eq!(hit(&vec![i2, i1]), Some(i1));
}

#[test]
fn hits_when_some_intersections_have_negative_t() {
    let i1 = Intersection::new(-1, SPHERE);
    let i2 = Intersection::new(1, SPHERE);

    assert_eq!(hit(&vec![i2, i1]), Some(i2));
}

#[test]
fn hits_when_all_intersections_have_negative_t() {
    let i1 = Intersection::new(-2, SPHERE);
    let i2 = Intersection::new(-1, SPHERE);

    assert_eq!(hit(&vec![i2, i1]), None);
}

#[test]
fn hit_is_always_lowest_non_negative_intersection() {
    let i1 = Intersection::new(5, SPHERE);
    let i2 = Intersection::new(7, SPHERE);
    let i3 = Intersection::new(-3, SPHERE);
    let i4 = Intersection::new(2, SPHERE);

    assert_eq!(hit(&vec![i1, i2, i3, i4]), Some(i4));
}

#[test]
fn hit_of_empty_list_is_none() {
    assert_eq!(hit(&vec![]), None);
}

#[test]
fn hit_keeps_earliest_record_at_equal_distance() {
    let first = Intersection::new(3, 1);
    let second = Intersection::new(3, 2);

    assert_eq!(hit(&vec![first, second]), Some(first));
    assert_eq!(hit(&vec![second, first]), Some(second));
}

#[test]
fn sorting_orders_by_distance() {
    let xs = vec![
        Intersection::new(5, 1),
        Intersection::new(-3, 2),
        Intersection::new(2, 3),
    ];

    let sorted = sort_intersections(&xs);

    assert_eq!(
        sorted,
        vec![
            Intersection::new(-3, 2),
            Intersection::new(2, 3),
            Intersection::new(5, 1),
        ]
    );
}

#[test]
fn sorting_keeps_arrival_order_of_equal_distances() {
    let xs = vec![
        Intersection::new(4, 9),
        Intersection::new(4, 7),
        Intersection::new(1, 8),
        Intersection::new(4, 5),
    ];

    let sorted = sort_intersections(&xs);

    assert_eq!(
        sorted,
        vec![
            Intersection::new(1, 8),
            Intersection::new(4, 9),
            Intersection::new(4, 7),
            Intersection::new(4, 5),
        ]
    );
}

// The scene of three overlapping glass spheres: A encloses B and C, which
// overlap each other, and the refractive index of each medium is read off
// the shape the ray is inside. The media on either side of each of the six
// ordered intersections follow the entering/exiting bookkeeping.
#[test]
fn finding_n1_and_n2_at_various_intersections() {
    let a: u128 = 1;
    let b: u128 = 2;
    let c: u128 = 3;

    // Distances 2, 2.75, 3.25, 4.75, 5.25, 6 mapped onto integer keys.
    let xs = vec![
        Intersection::new(200, a),
        Intersection::new(275, b),
        Intersection::new(325, c),
        Intersection::new(475, b),
        Intersection::new(525, c),
        Intersection::new(600, a),
    ];

    // Refractive indices: 1.5 for A, 2.0 for B, 2.5 for C, 1.0 outside.
    let index_of = |m: Medium| -> f64 {
        match m {
            Medium::Ambient => 1.0,
            Medium::Object(o) if o == a => 1.5,
            Medium::Object(o) if o == b => 2.0,
            Medium::Object(o) if o == c => 2.5,
            _ => 0.0,
        }
    };

    let expectations = [
        (1.0, 1.5),
        (1.5, 2.0),
        (2.0, 2.5),
        (2.5, 2.5),
        (2.5, 1.5),
        (1.5, 1.0),
    ];

    for i in 0..expectations.len() {
        let (n1, n2) = calculate_n1_n2(&xs, &xs[i]);
        assert_eq!(index_of(n1), expectations[i].0);
        assert_eq!(index_of(n2), expectations[i].1);
    }
}

#[test]
fn n1_n2_of_first_intersection_leaves_the_ambient_medium() {
    let xs = vec![Intersection::new(4, SPHERE), Intersection::new(6, SPHERE)];

    let (n1, n2) = calculate_n1_n2(&xs, &xs[0]);

    assert_eq!(n1, Medium::Ambient);
    assert_eq!(n2, Medium::Object(SPHERE));
}

#[test]
fn n1_n2_of_last_intersection_enters_the_ambient_medium() {
    let xs = vec![Intersection::new(4, SPHERE), Intersection::new(6, SPHERE)];

    let (n1, n2) = calculate_n1_n2(&xs, &xs[1]);

    assert_eq!(n1, Medium::Object(SPHERE));
    assert_eq!(n2, Medium::Ambient);
}

#[test]
fn n1_n2_of_an_absent_intersection_is_undetermined() {
    let xs = vec![Intersection::new(4, SPHERE)];
    let other = Intersection::new(5, SPHERE);

    let (n1, n2) = calculate_n1_n2(&xs, &other);

    assert_eq!(n1, Medium::Undetermined);
    assert_eq!(n2, Medium::Undetermined);
}

#[test]
fn shadowed_when_hit_is_closer_than_the_light() {
    // An object between the point and the light occludes it.
    let xs = vec![Intersection::new(40, SPHERE)];
    assert!(is_shadowed(&xs, 100));
}

#[test]
fn not_shadowed_when_hit_is_beyond_the_light() {
    // An object behind the light casts no shadow on the point.
    let xs = vec![Intersection::new(140, SPHERE)];
    assert!(!is_shadowed(&xs, 100));
}

#[test]
fn not_shadowed_when_everything_is_behind_the_point() {
    let xs = vec![Intersection::new(-40, SPHERE)];
    assert!(!is_shadowed(&xs, 100));
}

#[test]
fn creating_intersection_records() {
    let i = Intersection::new(35, SPHERE);
    assert_eq!(i.t, 35);
    assert_eq!(i.object, SPHERE);
}
