use gravity_bvh::aabb::{Aabb, Point};
use gravity_bvh::bvh::{Body, BvhContents, BvhError, BvhNode, BvhTree};
use gravity_bvh::data::BvhData;
use gravity_bvh::force::BvhConfig;

fn p(x: i16, y: i16) -> Point {
    Point::new(x, y)
}

fn body(id: u64, x: i16, y: i16, mass: u32) -> Body {
    Body { id, position: p(x, y), mass, local_center_of_mass: p(0, 0) }
}

fn count(n: &BvhNode) -> (usize, usize) {
    match &n.contents {
        BvhContents::Leaf { .. } => (1, 0),
        BvhContents::Branch { left, right } => {
            let (l1, b1) = count(left);
            let (l2, b2) = count(right);
            (l1 + l2, b1 + b2 + 1)
        }
    }
}

/// Net force on a body at `at` of mass `m` from the point masses, in f64.
fn force_from(list: &[BvhData], at: Point, m: f64, g: f64) -> (f64, f64) {
    let mut f = (0.0, 0.0);
    for d in list {
        let cx = d.moment_x as f64 / d.mass as f64;
        let cy = d.moment_y as f64 / d.mass as f64;
        let dx = cx - at.x as f64;
        let dy = cy - at.y as f64;
        let r2 = dx * dx + dy * dy;
        let r = r2.sqrt();
        let mag = g * m * d.mass as f64 / r2;
        f.0 += mag * dx / r;
        f.1 += mag * dy / r;
    }
    f
}

fn theta(num: u8, den: u8) -> BvhConfig {
    BvhConfig { g: 1, theta_num: num, theta_den: den, bin_count: 8 }
}

#[test]
fn union_is_commutative_and_covers() {
    let a = Aabb::new(p(0, 0), p(2, 3));
    let b = Aabb::new(p(-1, 1), p(1, 5));
    let u = a.union(&b);
    assert_eq!(u, b.union(&a));
    assert_eq!(u, Aabb::new(p(-1, 0), p(2, 5)));
    assert!(u.mins.x <= a.mins.x && u.maxs.y >= b.maxs.y);
}

#[test]
fn empty_box_is_union_identity() {
    let b = Aabb::new(p(-4, 7), p(9, 8));
    assert_eq!(Aabb::default().union(&b), b);
    assert_eq!(Aabb::default().extend(p(3, -2)), Aabb::new(p(3, -2), p(3, -2)));
}

#[test]
fn extend_and_area() {
    let b = Aabb::new(p(0, 0), p(1, 1)).extend(p(4, -2));
    assert_eq!(b, Aabb::new(p(0, -2), p(4, 1)));
    assert_eq!(b.area(), 12);
    assert_eq!(b.max_side(), 4);
    let wide = Aabb::new(p(i16::MIN, i16::MIN), p(i16::MAX, i16::MAX));
    assert_eq!(wide.area(), 0xfffe_0001);
}

#[test]
fn translate_box() {
    let mut b = Aabb::new(p(0, 0), p(2, 2));
    assert_eq!(b.add(p(1, -1)), Aabb::new(p(1, -1), p(3, 1)));
    assert_eq!(b.sub(p(1, -1)), Aabb::new(p(-1, 1), p(1, 3)));
    b.add_assign(p(5, 5));
    assert_eq!(b, Aabb::new(p(5, 5), p(7, 7)));
    b.sub_assign(p(5, 5));
    assert_eq!(b, Aabb::new(p(0, 0), p(2, 2)));
}

#[test]
fn union_of_summaries_adds_mass_and_weights_center() {
    let a = BvhData::for_body(p(0, 0), 3, p(0, 0));
    let b = BvhData::for_body(p(8, 4), 1, p(0, 0));
    let u = a.union(&b);
    assert_eq!(u.mass, 4);
    assert_eq!(u.center_of_mass(), (2, 1));
    assert_eq!(u.bounds, Aabb::new(p(0, 0), p(8, 4)));
}

#[test]
fn body_center_uses_local_offset() {
    let d = BvhData::for_body(p(10, 20), 5, p(-3, 2));
    assert_eq!(d.center_of_mass(), (7, 22));
    assert_eq!(d.bounds, Aabb::new(p(10, 20), p(10, 20)));
    assert_eq!(d.moment_x, 35);
}

#[test]
fn center_of_mass_rounds_down() {
    let a = BvhData::for_body(p(-1, 0), 1, p(0, 0));
    let b = BvhData::for_body(p(0, 0), 1, p(0, 0));
    assert_eq!(a.union(&b).center_of_mass(), (-1, 0));
}

#[test]
fn n_bodies_give_n_leaves_and_n_minus_one_branches() {
    let bodies: Vec<Body> = (0..7).map(|i| body(i, (i as i16) * 13 - 40, (i as i16 * 7) % 5, i as u32 + 1)).collect();
    let tree = BvhTree::build(&bodies).unwrap();
    let (leaves, branches) = count(tree.root.as_ref().unwrap());
    assert_eq!(leaves, 7);
    assert_eq!(branches, 6);
    assert_eq!(tree.total_mass(), 28);
    assert_eq!(tree.entity_table.len(), 7);
}

#[test]
fn single_body_is_the_root_leaf() {
    let tree = BvhTree::build(&vec![body(9, 1, 1, 2)]).unwrap();
    assert!(matches!(tree.root.as_ref().unwrap().contents, BvhContents::Leaf { entity: 9 }));
    assert!(tree.contains(9));
    assert!(!tree.contains(8));
}

#[test]
fn empty_tree_has_no_sources() {
    let tree = BvhTree::build(&vec![]).unwrap();
    assert!(tree.root.is_none());
    assert_eq!(tree.total_mass(), 0);
    assert!(tree.interaction_list(0, p(0, 0), &BvhConfig::default()).is_empty());
}

#[test]
fn insertion_order_keeps_root_summary() {
    let a = body(1, -10, 0, 3);
    let b = body(2, 20, 5, 4);
    let c = body(3, 0, -30, 5);
    let t1 = BvhTree::build(&vec![a, b, c]).unwrap();
    let t2 = BvhTree::build(&vec![c, b, a]).unwrap();
    let r1 = t1.root.as_ref().unwrap().data;
    let r2 = t2.root.as_ref().unwrap().data;
    assert_eq!(r1.mass, r2.mass);
    assert_eq!(r1.center_of_mass(), r2.center_of_mass());
    assert_eq!((r1.moment_x, r1.moment_y), (r2.moment_x, r2.moment_y));
}

#[test]
fn insertion_descends_toward_smaller_area() {
    let mut tree = BvhTree::new();
    tree.add_body(body(1, 0, 0, 1)).unwrap();
    tree.add_body(body(2, 100, 10, 1)).unwrap();
    tree.add_body(body(3, 101, 11, 1)).unwrap();
    match &tree.root.as_ref().unwrap().contents {
        BvhContents::Branch { left, right } => {
            assert!(matches!(left.contents, BvhContents::Leaf { entity: 1 }));
            assert_eq!(count(right), (2, 1));
        }
        BvhContents::Leaf { .. } => panic!("root should be a branch"),
    }
}

#[test]
fn zero_theta_matches_pairwise_sum() {
    let bodies = vec![body(1, 0, 0, 5), body(2, 30, 40, 2), body(3, -60, 10, 7), body(4, 5, -90, 1)];
    let tree = BvhTree::build(&bodies).unwrap();
    let list = tree.interaction_list(1, p(0, 0), &theta(0, 1));
    let mut ids_mass: Vec<u32> = list.iter().map(|d| d.mass).collect();
    ids_mass.sort();
    assert_eq!(ids_mass, vec![1, 2, 7]);
    let f = force_from(&list, p(0, 0), 5.0, 1.0);
    let others: Vec<BvhData> = bodies[1..].iter().map(|b| BvhData::for_body(b.position, b.mass, b.local_center_of_mass)).collect();
    let exact = force_from(&others, p(0, 0), 5.0, 1.0);
    assert!((f.0 - exact.0).abs() < 1e-12 && (f.1 - exact.1).abs() < 1e-12);
}

#[test]
fn large_theta_uses_root_summary() {
    let bodies = vec![body(1, 0, 0, 5), body(2, 10, 0, 5), body(3, 0, 10, 5)];
    let tree = BvhTree::build(&bodies).unwrap();
    let list = tree.interaction_list(99, p(1000, 1000), &theta(1, 1));
    assert_eq!(list.len(), 1);
    assert_eq!(list[0], tree.root.as_ref().unwrap().data);
    let unbounded = tree.interaction_list(99, p(20, 20), &theta(1, 0));
    assert_eq!(unbounded, vec![tree.root.as_ref().unwrap().data]);
}

#[test]
fn two_bodies_scenario() {
    let tree = BvhTree::build(&vec![body(1, -150, 0, 10), body(2, 150, 0, 10)]).unwrap();
    let expected = 1.0 / 900.0;
    for cfg in [theta(0, 1), theta(1, 2), theta(1, 1)] {
        let list = tree.interaction_list(1, p(-150, 0), &cfg);
        assert_eq!(list.len(), 1);
        assert_eq!(list[0].mass, 10);
        let f = force_from(&list, p(-150, 0), 10.0, 1.0);
        assert!((f.0 - expected).abs() < 1e-12);
        assert!(f.0 > 0.0);
        assert_eq!(f.1, 0.0);
    }
}

#[test]
fn self_and_coincident_bodies_contribute_nothing() {
    let tree = BvhTree::build(&vec![body(1, 0, 0, 1), body(2, 0, 0, 1)]).unwrap();
    assert!(tree.interaction_list(1, p(0, 0), &theta(0, 1)).is_empty());
    let alone = BvhTree::build(&vec![body(1, 3, 3, 1)]).unwrap();
    assert!(alone.interaction_list(1, p(3, 3), &theta(1, 2)).is_empty());
}

#[test]
fn zero_mass_is_rejected() {
    let mut tree = BvhTree::new();
    tree.add_body(body(1, 0, 0, 4)).unwrap();
    assert_eq!(tree.add_body(body(2, 5, 5, 0)), Err(BvhError::InvalidMass));
    assert_eq!(tree.total_mass(), 4);
    assert!(!tree.contains(2));
    assert!(matches!(BvhTree::build(&vec![body(1, 0, 0, 1), body(1, 1, 0, 0)]), Err(BvhError::InvalidMass)));
}

#[test]
fn duplicate_identity_is_rejected() {
    let mut tree = BvhTree::new();
    tree.add_body(body(1, 0, 0, 4)).unwrap();
    assert_eq!(tree.add_body(body(1, 5, 5, 2)), Err(BvhError::DuplicateBody));
    assert_eq!(tree.total_mass(), 4);
    assert!(matches!(BvhTree::build(&vec![body(1, 0, 0, 1), body(1, 1, 0, 1)]), Err(BvhError::DuplicateBody)));
}

#[test]
fn default_config() {
    let c = BvhConfig::default();
    assert_eq!((c.g, c.theta_num, c.theta_den, c.bin_count), (1, 1, 2, 8));
}

#[test]
fn theta_measures_to_exact_center() {
    // center (0.5, 0), extent 1, distance 1.5: 1 / 1.5 < 4/5
    let tree = BvhTree::build(&vec![body(1, 0, 0, 1), body(2, 1, 0, 1)]).unwrap();
    let list = tree.interaction_list(99, p(-1, 0), &theta(4, 5));
    assert_eq!(list, vec![tree.root.as_ref().unwrap().data]);
    // 1 / 1.5 is not below 3/5
    assert_eq!(tree.interaction_list(99, p(-1, 0), &theta(3, 5)).len(), 2);
}

#[test]
fn refused_body_leaves_root_untouched() {
    let mut tree = BvhTree::build(&vec![body(1, 0, 0, 2), body(2, 4, 4, 3)]).unwrap();
    let before = tree.root.as_ref().unwrap().data;
    assert_eq!(tree.add_body(body(3, 9, 9, 0)), Err(BvhError::InvalidMass));
    assert_eq!(tree.root.as_ref().unwrap().data, before);
    assert_eq!(count(tree.root.as_ref().unwrap()), (2, 1));
}
