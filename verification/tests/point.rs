use scenes::aabb::AABB;
use scenes::instance::Instance;
use scenes::oc_tree::iter::AabbCounter;
use scenes::point::Point3;
use scenes::toward;

#[test]
fn toward_sets_one_bit_for_each_axis() {
    let o = Point3 { x: 1, y: 2, z: 3 };
    assert_eq!(toward(Point3 { x: 0, y: 0, z: 0 }, o), 0);
    assert_eq!(toward(Point3 { x: 5, y: 0, z: 0 }, o), 1);
    assert_eq!(toward(Point3 { x: 0, y: 5, z: 0 }, o), 2);
    assert_eq!(toward(Point3 { x: 5, y: 5, z: 0 }, o), 3);
    assert_eq!(toward(Point3 { x: 0, y: 0, z: 5 }, o), 4);
    assert_eq!(toward(Point3 { x: 5, y: 0, z: 5 }, o), 5);
    assert_eq!(toward(Point3 { x: 0, y: 5, z: 5 }, o), 6);
    assert_eq!(toward(Point3 { x: 5, y: 5, z: 5 }, o), 7);
}

#[test]
fn toward_counts_a_tie_as_the_high_side() {
    let o = Point3 { x: 1, y: 2, z: 3 };
    assert_eq!(toward(o, o), 7);
    assert_eq!(toward(Point3 { x: 1, y: 1, z: 2 }, o), 1);
    assert_eq!(toward(Point3 { x: 0, y: 2, z: 2 }, o), 2);
    assert_eq!(toward(Point3 { x: 0, y: 1, z: 3 }, o), 4);
    assert_eq!(toward(Point3 { x: i32::MIN, y: i32::MAX, z: i32::MIN }, o), 2);
}

#[test]
fn instance_keeps_what_it_was_given() {
    let v = Instance::new(Point3::new(1, -2, 3), "brick".to_owned());
    assert_eq!(v.pos(), Point3 { x: 1, y: -2, z: 3 });
    assert_eq!(v.style_id(), "brick");
    assert_eq!(v.clone(), v);
    assert_eq!(v.toward(Point3 { x: 0, y: 0, z: 0 }), 5);
    assert_eq!(v.toward(Point3 { x: 1, y: -2, z: 3 }), 7);
    assert_eq!(v.toward(Point3 { x: 2, y: -1, z: 4 }), 0);
}

#[test]
fn default_instance_sits_at_the_origin() {
    let v = Instance::default();
    assert_eq!(v.pos(), Point3 { x: 0, y: 0, z: 0 });
    assert_eq!(v.style_id(), "");
    assert_eq!(v, Instance::new(Point3 { x: 0, y: 0, z: 0 }, String::new()));
}

#[test]
fn counter_scans_the_cube() {
    let mut ac = AabbCounter::new(1);
    assert_eq!(ac.scope(), 1);
    assert_eq!(ac.pos(), Point3 { x: -2, y: -1, z: -1 });

    assert_eq!(ac.next(), Some(Point3 { x: -1, y: -1, z: -1 }));
    assert_eq!(ac.next(), Some(Point3 { x: 0, y: -1, z: -1 }));
    assert_eq!(ac.next(), Some(Point3 { x: -1, y: 0, z: -1 }));
    assert_eq!(ac.next(), Some(Point3 { x: 0, y: 0, z: -1 }));
    assert_eq!(ac.next(), Some(Point3 { x: -1, y: -1, z: 0 }));
    assert_eq!(ac.next(), Some(Point3 { x: 0, y: -1, z: 0 }));
    assert_eq!(ac.next(), Some(Point3 { x: -1, y: 0, z: 0 }));
    assert_eq!(ac.next(), Some(Point3 { x: 0, y: 0, z: 0 }));
    assert_eq!(ac.pos(), Point3 { x: 0, y: 0, z: 0 });
    assert_eq!(ac.next(), None);
    assert_eq!(ac.next(), None);
    assert_eq!(ac.pos(), Point3 { x: 0, y: 0, z: 0 });
}

#[test]
fn counter_of_nothing_gives_nothing() {
    let mut ac = AabbCounter::new(0);
    assert_eq!(ac.next(), None);
    let mut ac = AabbCounter::default();
    assert_eq!(ac.scope(), 0);
    assert_eq!(ac.next(), None);
}

#[test]
fn counter_gives_every_point_once() {
    let mut ac = AabbCounter::new(3);
    let mut seen = Vec::new();
    while let Some(p) = ac.next() {
        seen.push((p.z, p.y, p.x));
    }
    assert_eq!(seen.len(), 6 * 6 * 6);
    assert_eq!(seen.first(), Some(&(-3, -3, -3)));
    assert_eq!(seen.last(), Some(&(2, 2, 2)));
    for pair in seen.windows(2) {
        assert!(pair[0] < pair[1]);
    }
}

#[test]
fn aabb_size_is_the_product_of_its_edges() {
    assert_eq!(AABB::new(0, 2, 3, 0, -1, 1).size(), 12);
    assert_eq!(AABB::new(2, 0, 0, 3, 1, -1).size(), 12);
    assert_eq!(AABB::new(5, 5, 0, 3, 1, -1).size(), 0);
    assert_eq!(AABB::new(-10, 10, -10, 10, -10, 10).size(), 8000);
    assert_eq!(AABB::default().size(), 0);
    assert_eq!(AABB::default(), AABB::new(0, 0, 0, 0, 0, 0));
    assert_eq!(AABB::new(1, 2, 3, 4, 5, 6), AABB::new(2, 1, 4, 3, 6, 5));
}
