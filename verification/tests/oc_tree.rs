use scenes::instance::Instance;
use scenes::oc_tree::LimitError;
use scenes::oc_tree::OcTree;
use scenes::oc_tree::MAX_SCOPE;
use scenes::point::Point3;
use std::collections::HashMap;

fn at(x: i32, y: i32, z: i32, style: &str) -> Instance {
    Instance::new(Point3 { x, y, z }, style.to_owned())
}

fn collect(tree: &OcTree) -> Vec<Instance> {
    let mut found = Vec::new();
    let mut iter = tree.iter();
    while let Some(v) = iter.next() {
        found.push(v);
    }
    found
}

#[test]
fn oc_tree_base_work() {
    let mut a = OcTree::from_scope(3);

    a.insert(Instance::default());

    assert_eq!(
        a.get(Point3 { x: 0, y: 0, z: 0 }),
        Some(Instance::default())
    );
}

#[test]
fn oc_tree_work() {
    let instances: Vec<_> = (0..100)
        .map(|i| {
            Instance::new(
                Point3 {
                    x: -i,
                    y: i - 1,
                    z: i * 2,
                },
                i.to_string(),
            )
        })
        .collect();

    let mut octree = OcTree::from_scope(4);

    for v in instances.clone() {
        octree.insert(v);
    }

    for v in instances {
        let gv = octree.get(v.pos());

        assert_eq!(gv, Some(v));
    }
}

#[test]
fn is_octree_works() {
    let mut tree = OcTree::new();
    assert_eq!(tree.len(), 0);
    assert_eq!(tree.scope(), 0);

    let near = at(1, -1, 0, "near");
    let far = at(-5, 2, 3, "far");
    tree.insert(near.clone());
    tree.insert(far.clone());

    assert_eq!(tree.len(), 2);
    assert_eq!(tree.scope(), 8);
    assert_eq!(tree.get(near.pos()), Some(near));
    assert_eq!(tree.get(far.pos()), Some(far));
    assert_eq!(tree.get(Point3 { x: 0, y: 0, z: 0 }), None);
}

#[test]
fn from_scope_rounds_up_to_a_power_of_two() {
    assert_eq!(OcTree::from_scope(0).scope(), 0);
    assert_eq!(OcTree::from_scope(1).scope(), 1);
    assert_eq!(OcTree::from_scope(2).scope(), 2);
    assert_eq!(OcTree::from_scope(3).scope(), 4);
    assert_eq!(OcTree::from_scope(4).scope(), 4);
    assert_eq!(OcTree::from_scope(5).scope(), 8);
    assert_eq!(OcTree::from_scope(1000).scope(), 1024);
    assert_eq!(OcTree::from_scope((1 << 29) + 1).scope(), 1 << 30);
    assert_eq!(OcTree::from_scope(MAX_SCOPE).scope(), MAX_SCOPE);
}

#[test]
fn fresh_trees_are_empty() {
    for tree in [OcTree::new(), OcTree::default(), OcTree::from_scope(3)] {
        assert_eq!(tree.len(), 0);
        assert_eq!(tree.get(Point3 { x: 0, y: 0, z: 0 }), None);
        assert_eq!(collect(&tree), Vec::new());
    }
    assert_eq!(OcTree::new(), OcTree::from_scope(0));
}

#[test]
fn round_trip_after_one_insertion() {
    for (x, y, z) in [(0, 0, 0), (4, 4, 4), (-3, -3, -3), (4, -3, 0), (9, 0, 0), (-4, 0, 0)] {
        let mut tree = OcTree::from_scope(4);
        let v = at(x, y, z, "v");
        tree.insert(v.clone());
        assert_eq!(tree.get(v.pos()), Some(v));
        assert_eq!(tree.len(), 1);
    }
}

#[test]
fn lower_bound_makes_the_tree_grow() {
    let mut tree = OcTree::from_scope(4);
    tree.insert(at(-4, 0, 0, "edge"));
    assert_eq!(tree.scope(), 8);
    assert_eq!(tree.get(Point3 { x: -4, y: 0, z: 0 }), Some(at(-4, 0, 0, "edge")));

    let mut tree = OcTree::from_scope(4);
    tree.insert(at(0, 3, -4, "edge"));
    assert_eq!(tree.scope(), 8);

    let mut tree = OcTree::from_scope(4);
    tree.insert(at(-3, -3, -3, "inside"));
    assert_eq!(tree.scope(), 4);
}

#[test]
fn upper_bound_is_taken_without_growth() {
    let mut tree = OcTree::from_scope(4);
    tree.insert(at(4, 4, 4, "corner"));
    assert_eq!(tree.scope(), 4);
    assert_eq!(tree.get(Point3 { x: 4, y: 4, z: 4 }), Some(at(4, 4, 4, "corner")));

    tree.insert(at(3, 0, 4, "face"));
    assert_eq!(tree.scope(), 4);

    tree.insert(at(5, 0, 0, "beyond"));
    assert_eq!(tree.scope(), 8);
}

#[test]
fn growth_doubles_until_the_point_fits() {
    let mut tree = OcTree::from_scope(1);
    tree.insert(at(100, 0, 0, "far"));
    assert_eq!(tree.scope(), 128);

    let mut tree = OcTree::from_scope(1);
    tree.insert(at(0, -128, 0, "far"));
    assert_eq!(tree.scope(), 256);

    let mut tree = OcTree::from_scope(1);
    tree.insert(at(0, 0, 128, "far"));
    assert_eq!(tree.scope(), 128);
}

#[test]
fn growth_reaches_the_largest_half_extent() {
    let mut tree = OcTree::from_scope(1);
    tree.insert(at(1, 1, 1, "near"));
    tree.insert(at(-1000, 1000, 999, "middle"));
    assert_eq!(tree.scope(), 1024);
    tree.insert(at(1 << 30, -(1 << 30) + 1, 0, "edge"));
    assert_eq!(tree.scope(), MAX_SCOPE);
    tree.insert(at((1 << 30) - 1, -(1 << 30) + 1, 0, "beside the edge"));
    assert_eq!(tree.scope(), MAX_SCOPE);
    assert_eq!(tree.len(), 4);

    assert_eq!(tree.get(Point3 { x: 1, y: 1, z: 1 }), Some(at(1, 1, 1, "near")));
    assert_eq!(
        tree.get(Point3 { x: -1000, y: 1000, z: 999 }),
        Some(at(-1000, 1000, 999, "middle"))
    );
    assert_eq!(
        tree.get(Point3 { x: 1 << 30, y: -(1 << 30) + 1, z: 0 }),
        Some(at(1 << 30, -(1 << 30) + 1, 0, "edge"))
    );
    assert_eq!(
        tree.get(Point3 { x: (1 << 30) - 1, y: -(1 << 30) + 1, z: 0 }),
        Some(at((1 << 30) - 1, -(1 << 30) + 1, 0, "beside the edge"))
    );
    assert_eq!(tree.get(Point3 { x: 1 << 30, y: -(1 << 30) + 1, z: 1 }), None);
    assert_eq!(tree.instances().len(), 4);
}

#[test]
fn a_copy_of_a_tree_is_equal_and_apart() {
    let mut tree = OcTree::from_scope(4);
    tree.insert(at(1, 2, 3, "a"));
    tree.insert(at(1, 2, 2, "b"));
    tree.insert(at(-3, 0, 4, "c"));

    let mut copy = tree.clone();
    assert_eq!(copy, tree);
    assert_eq!(copy.len(), 3);
    assert_eq!(copy.scope(), 4);
    assert_eq!(collect(&copy), collect(&tree));

    copy.insert(at(0, 0, 0, "d"));
    assert_eq!(copy.get(Point3 { x: 0, y: 0, z: 0 }), Some(at(0, 0, 0, "d")));
    assert_eq!(tree.get(Point3 { x: 0, y: 0, z: 0 }), None);
    assert_eq!(tree.len(), 3);
}

#[test]
fn growth_from_nothing() {
    let mut tree = OcTree::new();
    tree.insert(at(0, 0, 0, "origin"));
    assert_eq!(tree.scope(), 1);

    tree.insert(at(1, 0, 0, "one"));
    assert_eq!(tree.scope(), 1);
    assert_eq!(tree.get(Point3 { x: 0, y: 0, z: 0 }), Some(at(0, 0, 0, "origin")));

    tree.insert(at(0, 0, -1, "below"));
    assert_eq!(tree.scope(), 2);
    assert_eq!(tree.get(Point3 { x: 0, y: 0, z: 0 }), Some(at(0, 0, 0, "origin")));
    assert_eq!(tree.get(Point3 { x: 1, y: 0, z: 0 }), Some(at(1, 0, 0, "one")));
    assert_eq!(tree.get(Point3 { x: 0, y: 0, z: -1 }), Some(at(0, 0, -1, "below")));
    assert_eq!(tree.len(), 3);
}

#[test]
fn growth_keeps_what_lay_on_the_upper_faces() {
    let mut tree = OcTree::from_scope(4);
    tree.insert(at(4, 0, 0, "face"));
    tree.insert(at(4, 4, 4, "corner"));
    tree.insert(at(-3, 1, 2, "inside"));
    tree.insert(at(5, 0, 0, "beyond"));
    assert_eq!(tree.scope(), 8);
    assert_eq!(tree.len(), 4);
    assert_eq!(tree.get(Point3 { x: 4, y: 0, z: 0 }), Some(at(4, 0, 0, "face")));
    assert_eq!(tree.get(Point3 { x: 4, y: 4, z: 4 }), Some(at(4, 4, 4, "corner")));
    assert_eq!(tree.get(Point3 { x: -3, y: 1, z: 2 }), Some(at(-3, 1, 2, "inside")));
    assert_eq!(tree.get(Point3 { x: 5, y: 0, z: 0 }), Some(at(5, 0, 0, "beyond")));
}

#[test]
fn growth_keeps_the_enumeration() {
    let mut tree = OcTree::from_scope(2);
    tree.insert(at(1, 1, 1, "a"));
    tree.insert(at(-2 + 1, 0, 0, "b"));
    tree.insert(at(0, -1, 1, "c"));
    let before = collect(&tree);
    assert_eq!(before.len(), 3);

    tree.insert(at(0, 0, 7, "far"));
    assert_eq!(tree.scope(), 8);
    let after = collect(&tree);
    for v in before {
        assert!(after.contains(&v));
    }
    assert!(after.contains(&at(0, 0, 7, "far")));
}

#[test]
fn insertion_order_does_not_matter() {
    let points = [(0, 0, 0), (1, 0, 0), (0, 1, 0), (-7, 3, 2), (3, 3, 3), (3, 3, 2), (-1, -1, -1)];
    let forward: Vec<Instance> =
        points.iter().map(|&(x, y, z)| at(x, y, z, &format!("{x},{y},{z}"))).collect();
    let mut backward = forward.clone();
    backward.reverse();

    for order in [forward.clone(), backward] {
        let mut tree = OcTree::from_scope(1);
        for v in order {
            tree.insert(v);
        }
        for v in &forward {
            assert_eq!(tree.get(v.pos()), Some(v.clone()));
        }
        assert_eq!(tree.len(), 7);
        assert_eq!(tree.scope(), 8);
    }
}

#[test]
fn neighbours_part_at_the_finest_level() {
    let mut tree = OcTree::from_scope(MAX_SCOPE);
    let points = [
        (0, 0, 0),
        (1, 0, 0),
        (0, 1, 0),
        (0, 0, 1),
        (1, 1, 1),
        (-1, -1, -1),
        (-2, -1, -1),
        (1 << 30, 1 << 30, 1 << 30),
        ((1 << 30) - 1, 1 << 30, 1 << 30),
        (-(1 << 30) + 1, -(1 << 30) + 1, -(1 << 30) + 1),
        (-(1 << 30) + 2, -(1 << 30) + 1, -(1 << 30) + 1),
        (123_456_789, -987_654_321, 1),
        (123_456_789, -987_654_321, 2),
    ];
    for (i, &(x, y, z)) in points.iter().enumerate() {
        tree.insert(at(x, y, z, &i.to_string()));
    }
    for (i, &(x, y, z)) in points.iter().enumerate() {
        assert_eq!(tree.get(Point3 { x, y, z }), Some(at(x, y, z, &i.to_string())));
    }
    assert_eq!(tree.scope(), MAX_SCOPE);
    assert_eq!(tree.get(Point3 { x: 2, y: 0, z: 0 }), None);
    assert_eq!(tree.get(Point3 { x: i32::MAX, y: i32::MAX, z: i32::MAX }), None);
    assert_eq!(tree.get(Point3 { x: i32::MIN, y: i32::MIN, z: i32::MIN }), None);
}

#[test]
fn absent_where_nothing_was_inserted() {
    let mut tree = OcTree::from_scope(4);
    assert_eq!(tree.get(Point3 { x: 1, y: 1, z: 1 }), None);

    tree.insert(at(0, 0, 0, "only"));
    assert_eq!(tree.get(Point3 { x: 1, y: 1, z: 1 }), None);
    assert_eq!(tree.get(Point3 { x: 0, y: 0, z: 1 }), None);
    assert_eq!(tree.get(Point3 { x: -1, y: 0, z: 0 }), None);
    assert_eq!(tree.get(Point3 { x: 100, y: 100, z: 100 }), None);
    assert_eq!(tree.get(Point3 { x: -100, y: 3, z: 0 }), None);

    tree.insert(at(3, 3, 3, "second"));
    assert_eq!(tree.get(Point3 { x: 3, y: 3, z: 2 }), None);
    assert_eq!(tree.get(Point3 { x: 2, y: 2, z: 2 }), None);
    assert_eq!(tree.get(Point3 { x: 1000, y: 0, z: 0 }), None);
}

#[test]
fn a_second_insertion_at_a_position_replaces_the_first() {
    let mut tree = OcTree::from_scope(4);
    tree.insert(at(1, 2, 3, "old"));
    tree.insert(at(1, 2, 3, "new"));
    assert_eq!(tree.get(Point3 { x: 1, y: 2, z: 3 }), Some(at(1, 2, 3, "new")));
    assert_eq!(tree.len(), 2);
    assert_eq!(collect(&tree), vec![at(1, 2, 3, "new")]);

    tree.insert(at(1, 2, 2, "other"));
    tree.insert(at(1, 2, 3, "newest"));
    assert_eq!(tree.get(Point3 { x: 1, y: 2, z: 3 }), Some(at(1, 2, 3, "newest")));
    assert_eq!(tree.get(Point3 { x: 1, y: 2, z: 2 }), Some(at(1, 2, 2, "other")));
    assert_eq!(tree.len(), 4);
}

#[test]
fn len_counts_insertions() {
    let mut tree = OcTree::from_scope(2);
    for i in 0..10 {
        assert_eq!(tree.len(), i);
        tree.insert(at(i as i32, 0, 0, "x"));
    }
    assert_eq!(tree.len(), 10);
    assert_eq!(tree.scope(), 16);
}

#[test]
fn enumeration_runs_x_then_y_then_z() {
    let mut tree = OcTree::from_scope(2);
    for (x, y, z) in [(1, 1, 1), (0, 0, 0), (-2, 1, 1), (1, -2, 1), (1, 1, -2), (-1, 0, 0), (0, 1, 0), (0, -1, 0)] {
        tree.insert(at(x, y, z, "p"));
    }
    assert_eq!(tree.scope(), 4);
    let positions: Vec<(i32, i32, i32)> =
        collect(&tree).iter().map(|v| (v.pos().x, v.pos().y, v.pos().z)).collect();
    assert_eq!(
        positions,
        vec![
            (1, 1, -2),
            (0, -1, 0),
            (-1, 0, 0),
            (0, 0, 0),
            (0, 1, 0),
            (1, -2, 1),
            (-2, 1, 1),
            (1, 1, 1),
        ]
    );
}

#[test]
fn enumeration_passes_the_cube_and_not_its_upper_faces() {
    let mut tree = OcTree::from_scope(2);
    tree.insert(at(2, 0, 0, "face x"));
    tree.insert(at(0, 2, 0, "face y"));
    tree.insert(at(0, 0, 2, "face z"));
    tree.insert(at(1, 1, 1, "inside"));
    tree.insert(at(-1, -1, -1, "low"));
    assert_eq!(tree.scope(), 2);
    assert_eq!(collect(&tree), vec![at(-1, -1, -1, "low"), at(1, 1, 1, "inside")]);

    tree.insert(at(0, 0, 3, "far"));
    assert_eq!(tree.scope(), 4);
    assert_eq!(
        collect(&tree),
        vec![
            at(-1, -1, -1, "low"),
            at(2, 0, 0, "face x"),
            at(0, 2, 0, "face y"),
            at(1, 1, 1, "inside"),
            at(0, 0, 2, "face z"),
            at(0, 0, 3, "far"),
        ]
    );
}

#[test]
fn instances_are_everything_once() {
    let mut tree = OcTree::from_scope(2);
    assert_eq!(tree.instances(), Vec::new());

    let given = [
        at(2, 0, 0, "face x"),
        at(0, 2, 0, "face y"),
        at(1, 1, 1, "inside"),
        at(1, 1, 0, "beside"),
        at(-1, -1, -1, "low"),
        at(2, 2, 2, "corner"),
    ];
    for v in given.iter() {
        tree.insert(v.clone());
    }
    tree.insert(at(1, 1, 1, "again"));
    assert_eq!(tree.scope(), 2);

    let all = tree.instances();
    assert_eq!(all.len(), 6);
    for v in given.iter() {
        if v.pos() == (Point3 { x: 1, y: 1, z: 1 }) {
            assert!(all.contains(&at(1, 1, 1, "again")));
            assert!(!all.contains(v));
        } else {
            assert!(all.contains(v));
        }
    }

    let scanned = collect(&tree);
    assert_eq!(scanned.len(), 3);
    for v in all.iter() {
        let inside = v.pos().x < 2 && v.pos().y < 2 && v.pos().z < 2;
        assert_eq!(scanned.contains(v), inside);
    }
}

#[test]
fn enumeration_is_the_same_twice() {
    let mut tree = OcTree::from_scope(4);
    for i in 0..20 {
        tree.insert(at((i * 7) % 9 - 4, (i * 5) % 7 - 3, (i * 3) % 8 - 4, &i.to_string()));
    }
    let first = collect(&tree);
    let second = collect(&tree);
    assert_eq!(first, second);
    assert!(!first.is_empty());

    let mut owned = Vec::new();
    let mut iter = tree.into_iter();
    while let Some(v) = iter.next() {
        owned.push(v);
    }
    assert_eq!(owned, first);
}

#[test]
fn iterator_gives_nothing_after_the_end() {
    let mut tree = OcTree::from_scope(1);
    tree.insert(at(0, 0, 0, "only"));
    let mut iter = tree.iter();
    assert_eq!(iter.next(), Some(at(0, 0, 0, "only")));
    assert_eq!(iter.next(), None);
    assert_eq!(iter.next(), None);
}

#[test]
fn agrees_with_a_map_on_scattered_points() {
    let mut tree = OcTree::from_scope(1);
    let mut model: HashMap<(i32, i32, i32), Instance> = HashMap::new();
    let mut seed: u64 = 0x2545_f491_4f6c_dd1d;
    let mut next = || {
        seed ^= seed << 13;
        seed ^= seed >> 7;
        seed ^= seed << 17;
        (seed % 41) as i32 - 20
    };
    for i in 0..600 {
        let (x, y, z) = (next(), next(), next());
        let v = at(x, y, z, &i.to_string());
        tree.insert(v.clone());
        model.insert((x, y, z), v);
    }
    assert_eq!(tree.len(), 600);
    assert_eq!(tree.scope(), 32);
    for x in -22..=22 {
        for y in -22..=22 {
            for z in -22..=22 {
                assert_eq!(tree.get(Point3 { x, y, z }), model.get(&(x, y, z)).cloned());
            }
        }
    }
    let mut keys: Vec<(i32, i32, i32)> = model.keys().map(|&(x, y, z)| (z, y, x)).collect();
    keys.sort();
    let expected: Vec<Instance> =
        keys.iter().map(|&(z, y, x)| model[&(x, y, z)].clone()).collect();
    assert_eq!(collect(&tree), expected);

    let mut walked = tree.instances();
    walked.sort_by_key(|v| (v.pos().z, v.pos().y, v.pos().x));
    assert_eq!(walked, expected);
}

#[test]
fn try_insert_reports_what_is_out_of_reach() {
    let mut tree = OcTree::from_scope(4);
    tree.insert(at(1, 1, 1, "kept"));

    assert_eq!(tree.try_insert(at((1 << 30) + 1, 0, 0, "far")), Err(LimitError::OutOfReach));
    assert_eq!(tree.try_insert(at(0, -(1 << 30), 0, "far")), Err(LimitError::OutOfReach));
    assert_eq!(tree.try_insert(at(0, 0, i32::MIN, "far")), Err(LimitError::OutOfReach));
    assert_eq!(tree.try_insert(at(i32::MAX, i32::MAX, i32::MAX, "far")), Err(LimitError::OutOfReach));
    assert_eq!(tree.len(), 1);
    assert_eq!(tree.scope(), 4);
    assert_eq!(tree.get(Point3 { x: 1, y: 1, z: 1 }), Some(at(1, 1, 1, "kept")));

    assert_eq!(tree.try_insert(at(-4, 0, 0, "near")), Ok(()));
    assert_eq!(tree.len(), 2);
    assert_eq!(tree.scope(), 8);
    assert_eq!(tree.get(Point3 { x: -4, y: 0, z: 0 }), Some(at(-4, 0, 0, "near")));
}

#[test]
fn try_insert_takes_the_edge_of_reach() {
    let mut tree = OcTree::from_scope(MAX_SCOPE);
    assert_eq!(tree.try_insert(at(1 << 30, -(1 << 30) + 1, 0, "edge")), Ok(()));
    assert_eq!(
        tree.get(Point3 { x: 1 << 30, y: -(1 << 30) + 1, z: 0 }),
        Some(at(1 << 30, -(1 << 30) + 1, 0, "edge"))
    );
}

#[test]
fn in_scope_is_open_below_and_closed_above() {
    let tree = OcTree::from_scope(4);
    assert!(tree.is_in_scope(&Point3 { x: 4, y: 4, z: 4 }));
    assert!(tree.is_in_scope(&Point3 { x: -3, y: -3, z: -3 }));
    assert!(tree.is_in_scope(&Point3 { x: 0, y: 4, z: -3 }));
    assert!(!tree.is_in_scope(&Point3 { x: -4, y: 0, z: 0 }));
    assert!(!tree.is_in_scope(&Point3 { x: 0, y: -4, z: 0 }));
    assert!(!tree.is_in_scope(&Point3 { x: 0, y: 0, z: -4 }));
    assert!(!tree.is_in_scope(&Point3 { x: 5, y: 0, z: 0 }));
    assert!(!tree.is_in_scope(&Point3 { x: 0, y: 0, z: 5 }));

    let nothing = OcTree::new();
    assert!(!nothing.is_in_scope(&Point3 { x: 0, y: 0, z: 0 }));
}

#[test]
fn update_scope_keeps_what_the_tree_holds() {
    let mut tree = OcTree::from_scope(2);
    tree.insert(at(2, 2, 2, "corner"));
    tree.insert(at(-1, 0, 1, "inside"));
    tree.insert(at(-1, 0, 0, "beside"));

    tree.update_scope(8);
    assert_eq!(tree.scope(), 8);
    assert_eq!(tree.len(), 3);
    assert_eq!(tree.get(Point3 { x: 2, y: 2, z: 2 }), Some(at(2, 2, 2, "corner")));
    assert_eq!(tree.get(Point3 { x: -1, y: 0, z: 1 }), Some(at(-1, 0, 1, "inside")));
    assert_eq!(tree.get(Point3 { x: -1, y: 0, z: 0 }), Some(at(-1, 0, 0, "beside")));
    assert_eq!(tree.instances().len(), 3);

    tree.update_scope(9);
    assert_eq!(tree.scope(), 16);
    assert_eq!(tree.len(), 3);
    assert_eq!(collect(&tree).len(), 3);
    assert_eq!(tree.get(Point3 { x: 0, y: 0, z: 0 }), None);

    tree.update_scope(16);
    assert_eq!(tree.scope(), 16);
}
