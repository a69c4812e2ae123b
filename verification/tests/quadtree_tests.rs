use barnes_hut::geom::Rectangle;
use barnes_hut::particle::Particle;
use barnes_hut::quadtree::{build, InsertOutcome, Quadtree};

fn sorted_triples(points: &[Particle]) -> Vec<(i64, i64, u64)> {
    let mut v: Vec<(i64, i64, u64)> = points.iter().map(|p| (p.x, p.y, p.mass)).collect();
    v.sort();
    v
}

#[test]
fn empty_tree_has_nothing() {
    let tree = Quadtree::new(Rectangle::new(0, 0, 100, 100));
    assert_eq!(tree.get_points().len(), 0);
    assert_eq!(tree.get_total_mass(), 0);
    assert_eq!(tree.get_center_of_mass(), (0, 0, 0));
    let everything = Rectangle::new(0, 0, 100, 100);
    assert_eq!(tree.query(&everything).len(), 0);
}

#[test]
fn mass_is_conserved_over_inserts() {
    let mut tree = Quadtree::new(Rectangle::new(0, 0, 100, 100));
    let masses = [1u64, 60, 7, 7, 25];
    let positions = [(5i64, 5i64), (5, 99), (80, 20), (20, 80), (99, 99)];
    let mut expected: u64 = 0;
    for (i, &(x, y)) in positions.iter().enumerate() {
        let outcome = tree.insert(Particle::with_mass(x, y, masses[i]));
        assert_eq!(outcome, InsertOutcome::Inserted);
        expected += masses[i];
        assert_eq!(tree.get_total_mass(), expected);
    }
    assert_eq!(tree.get_total_mass(), 100);
}

#[test]
fn get_points_returns_exactly_the_inserted_multiset() {
    let mut tree = Quadtree::new(Rectangle::new(0, 0, 100, 100));
    let inserted = [
        Particle::with_mass(5, 5, 1),
        Particle::with_mass(5, 99, 60),
        Particle::with_mass(80, 20, 7),
        Particle::with_mass(20, 80, 7),
        Particle::with_mass(99, 99, 25),
    ];
    for p in inserted.iter() {
        assert_eq!(tree.insert(*p), InsertOutcome::Inserted);
    }
    let out = tree.get_points();
    assert_eq!(sorted_triples(&out), sorted_triples(&inserted));
}

#[test]
fn center_of_mass_matches_direct_weighted_average() {
    let mut tree = Quadtree::new(Rectangle::new(0, 0, 100, 100));
    tree.insert(Particle::with_mass(5, 5, 1));
    tree.insert(Particle::with_mass(5, 99, 60));
    let (wx, wy, m) = tree.get_center_of_mass();
    // Exact integer sums first.
    assert_eq!(wx, 5 * 1 + 5 * 60);
    assert_eq!(wy, 5 * 1 + 99 * 60);
    assert_eq!(m, 61);
    // The rational centroid agrees with the direct mass-weighted
    // average to within 1e-9 relative error (here: exactly).
    let cx = wx as f64 / m as f64;
    let cy = wy as f64 / m as f64;
    let direct_cx = (5.0 * 1.0 + 5.0 * 60.0) / 61.0;
    let direct_cy = (5.0 * 1.0 + 99.0 * 60.0) / 61.0;
    assert!(((cx - direct_cx) / direct_cx).abs() < 1e-9);
    assert!(((cy - direct_cy) / direct_cy).abs() < 1e-9);
}

#[test]
fn query_returns_exactly_the_contained_points() {
    let mut tree = Quadtree::new(Rectangle::new(0, 0, 100, 100));
    let all = [
        (10i64, 10i64),
        (60, 10),
        (10, 60),
        (60, 60),
        (30, 40),
        (49, 49),
        (51, 51),
    ];
    for &(x, y) in all.iter() {
        tree.insert(Particle::new(x, y));
    }
    let range = Rectangle::new(0, 0, 45, 45);
    let found = tree.query(&range);
    let mut got = sorted_triples(&found);
    got.dedup();
    let expected: Vec<(i64, i64, u64)> = vec![(10, 10, 1), (30, 40, 1)];
    assert_eq!(got, expected);
    // Completeness and soundness against a direct scan.
    for &(x, y) in all.iter() {
        let inside = x <= 45 && y <= 45;
        let hit = found.iter().any(|p| p.x == x && p.y == y);
        assert_eq!(inside, hit);
    }
}

#[test]
fn query_quadrant_returns_only_nw_points() {
    let mut tree = Quadtree::new(Rectangle::new(0, 0, 100, 100));
    // One point strictly inside each quadrant.
    tree.insert(Particle::new(10, 10));
    tree.insert(Particle::new(60, 10));
    tree.insert(Particle::new(10, 60));
    tree.insert(Particle::new(60, 60));
    let nw_range = Rectangle::new(0, 0, 50, 50);
    let found = tree.query(&nw_range);
    assert_eq!(found.len(), 1);
    assert_eq!((found[0].x, found[0].y), (10, 10));
}

#[test]
fn out_of_bounds_insert_is_reported_and_changes_nothing() {
    let mut tree = Quadtree::new(Rectangle::new(0, 0, 100, 100));
    tree.insert(Particle::new(25, 25));
    let before_points = sorted_triples(&tree.get_points());
    let before_mass = tree.get_total_mass();
    let outcome = tree.insert(Particle::new(750, 75));
    assert_eq!(outcome, InsertOutcome::Dropped);
    assert_eq!(sorted_triples(&tree.get_points()), before_points);
    assert_eq!(tree.get_total_mass(), before_mass);
}

#[test]
fn zero_mass_insert_is_rejected_and_changes_nothing() {
    let mut tree = Quadtree::new(Rectangle::new(0, 0, 100, 100));
    tree.insert(Particle::new(25, 25));
    let before_points = sorted_triples(&tree.get_points());
    let outcome = tree.insert(Particle::with_mass(30, 30, 0));
    assert_eq!(outcome, InsertOutcome::InvalidMass);
    assert_eq!(sorted_triples(&tree.get_points()), before_points);
    assert_eq!(tree.get_total_mass(), 1);
}

#[test]
fn coincident_particles_terminate_and_coexist() {
    let mut tree = Quadtree::new(Rectangle::new(0, 0, 100, 100));
    assert_eq!(tree.insert(Particle::new(5, 5)), InsertOutcome::Inserted);
    assert_eq!(tree.insert(Particle::new(5, 5)), InsertOutcome::Inserted);
    assert_eq!(tree.insert(Particle::with_mass(5, 5, 3)), InsertOutcome::Inserted);
    let out = tree.get_points();
    assert_eq!(out.len(), 3);
    assert_eq!(tree.get_total_mass(), 5);
}

#[test]
fn twenty_thousand_particles_mass_exact() {
    let mut tree = Quadtree::new(Rectangle::new(0, 0, 100, 100));
    // Deterministic linear-congruential scatter over the boundary.
    let mut state: u64 = 0x2545_F491_4F6C_DD1D;
    for _ in 0..20000 {
        state = state.wrapping_mul(6364136223846793005).wrapping_add(1442695040888963407);
        let x = ((state >> 33) % 101) as i64;
        state = state.wrapping_mul(6364136223846793005).wrapping_add(1442695040888963407);
        let y = ((state >> 33) % 101) as i64;
        assert_eq!(tree.insert(Particle::new(x, y)), InsertOutcome::Inserted);
    }
    assert_eq!(tree.get_total_mass(), 20000);
    assert_eq!(tree.get_points().len(), 20000);
}

#[test]
fn build_indexes_valid_particles_and_reports_the_rest() {
    let boundary = Rectangle::new(0, 0, 100, 100);
    let input = vec![
        Particle::with_mass(5, 5, 1),
        Particle::with_mass(750, 75, 2),  // out of bounds
        Particle::with_mass(5, 99, 60),
        Particle::with_mass(40, 40, 0),   // zero mass
        Particle::with_mass(99, 1, 4),
    ];
    let (tree, rejected) = build(boundary, &input);
    assert_eq!(tree.get_total_mass(), 65);
    let got = sorted_triples(&tree.get_points());
    assert_eq!(got, vec![(5, 5, 1), (5, 99, 60), (99, 1, 4)]);
    // Rejected particles come back in input order.
    assert_eq!(rejected.len(), 2);
    assert_eq!((rejected[0].x, rejected[0].y, rejected[0].mass), (750, 75, 2));
    assert_eq!((rejected[1].x, rejected[1].y, rejected[1].mass), (40, 40, 0));
}
