use barnes_hut::evaluator::Contribution;
use barnes_hut::geom::Rectangle;
use barnes_hut::particle::Particle;
use barnes_hut::quadtree::Quadtree;

const G: f64 = 6.6743e-11;

/// The floating-point force kernel applied to one Barnes-Hut term:
/// the force exerted on the active particle at `(px, py)` with mass
/// `pm` by the term's (aggregate) body.  Coincident sources exert no
/// force.
fn force_term(px: f64, py: f64, pm: f64, c: &Contribution) -> (f64, f64) {
    let (bx, by, bm) = match c {
        Contribution::Body(q) => (q.x as f64, q.y as f64, q.mass as f64),
        Contribution::Cluster { wx, wy, mass } => {
            let m = *mass as f64;
            (*wx as f64 / m, *wy as f64 / m, m)
        }
    };
    let dx = bx - px;
    let dy = by - py;
    let distance = (dx * dx + dy * dy).sqrt();
    if distance == 0.0 {
        (0.0, 0.0)
    } else {
        let force = G * pm * bm / (distance * distance);
        (force * dx / distance, force * dy / distance)
    }
}

fn net_force(px: f64, py: f64, pm: f64, terms: &[Contribution]) -> (f64, f64) {
    let mut fx = 0.0;
    let mut fy = 0.0;
    for c in terms {
        let (tx, ty) = force_term(px, py, pm, c);
        fx += tx;
        fy += ty;
    }
    (fx, fy)
}

#[test]
fn two_body_force_at_theta_zero_matches_newton() {
    let mut tree = Quadtree::new(Rectangle::new(0, 0, 100, 100));
    let a = Particle::with_mass(5, 5, 1);
    let b = Particle::with_mass(5, 99, 60);
    tree.insert(a);
    tree.insert(b);
    // theta = 0: never approximate.
    let terms = tree.compute_force(&a, 0, 1);
    assert_eq!(terms.len(), 1);
    assert_eq!(terms[0], Contribution::Body(b));
    let (fx, fy) = net_force(5.0, 5.0, 1.0, &terms);
    let expected = G * 1.0 * 60.0 / (94.0 * 94.0);
    assert!((expected - 4.5318e-13).abs() < 1e-16);
    assert!(fx.abs() < 1e-30);
    assert!((fy - expected).abs() < 1e-25);
    assert!(fy > 0.0); // directed toward (5, 99)
}

#[test]
fn theta_zero_lists_every_other_particle() {
    let mut tree = Quadtree::new(Rectangle::new(0, 0, 100, 100));
    let particles = [
        Particle::with_mass(5, 5, 1),
        Particle::with_mass(5, 99, 60),
        Particle::with_mass(80, 20, 7),
        Particle::with_mass(20, 80, 7),
        Particle::with_mass(99, 99, 25),
    ];
    for p in particles.iter() {
        tree.insert(*p);
    }
    let active = particles[0];
    let terms = tree.compute_force(&active, 0, 1);
    assert_eq!(terms.len(), 4);
    let mut got: Vec<(i64, i64, u64)> = terms
        .iter()
        .map(|c| match c {
            Contribution::Body(q) => (q.x, q.y, q.mass),
            _ => panic!("no aggregate expected at theta = 0"),
        })
        .collect();
    got.sort();
    let mut expected: Vec<(i64, i64, u64)> =
        particles[1..].iter().map(|p| (p.x, p.y, p.mass)).collect();
    expected.sort();
    assert_eq!(got, expected);
}

#[test]
fn distant_cluster_is_approximated_as_one_aggregate() {
    let mut tree = Quadtree::new(Rectangle::new(0, 0, 1024, 1024));
    tree.insert(Particle::with_mass(1, 1, 1));
    tree.insert(Particle::with_mass(2, 2, 1));
    let active = Particle::with_mass(1000, 1000, 1);
    tree.insert(active);
    // theta = 1/2.  The NW subtree (width 512) seen from (1000, 1000)
    // has s/d well below 1/2 and collapses to one aggregate term; the
    // active particle's own leaf is excluded.
    let terms = tree.compute_force(&active, 1, 2);
    assert_eq!(terms.len(), 1);
    assert_eq!(terms[0], Contribution::Cluster { wx: 3, wy: 3, mass: 2 });
}

#[test]
fn near_cluster_is_opened_not_approximated() {
    let mut tree = Quadtree::new(Rectangle::new(0, 0, 1024, 1024));
    tree.insert(Particle::with_mass(1, 1, 1));
    tree.insert(Particle::with_mass(2, 2, 1));
    let active = Particle::with_mass(3, 3, 1);
    // Seen from right beside it, the same cluster must be opened down
    // to its leaves: the opening-angle test is a real conditional, not
    // a constant.
    let terms = tree.compute_force(&active, 1, 2);
    let mut got: Vec<(i64, i64, u64)> = terms
        .iter()
        .map(|c| match c {
            Contribution::Body(q) => (q.x, q.y, q.mass),
            _ => panic!("near field must stay exact"),
        })
        .collect();
    got.sort();
    assert_eq!(got, vec![(1, 1, 1), (2, 2, 1)]);
}

#[test]
fn smaller_theta_converges_to_brute_force() {
    let mut tree = Quadtree::new(Rectangle::new(0, 0, 100, 100));
    let particles = [
        Particle::with_mass(5, 5, 1),
        Particle::with_mass(5, 99, 60),
        Particle::with_mass(80, 20, 7),
        Particle::with_mass(20, 80, 7),
        Particle::with_mass(99, 99, 25),
        Particle::with_mass(33, 44, 3),
        Particle::with_mass(66, 12, 9),
    ];
    for p in particles.iter() {
        tree.insert(*p);
    }
    let active = particles[0];
    // Brute force: theta = 0 is proved to list every other particle.
    let exact_terms = tree.compute_force(&active, 0, 1);
    let (ex, ey) = net_force(5.0, 5.0, 1.0, &exact_terms);
    let err_of = |num: u64, den: u64| -> f64 {
        let terms = tree.compute_force(&active, num, den);
        let (fx, fy) = net_force(5.0, 5.0, 1.0, &terms);
        ((fx - ex).powi(2) + (fy - ey).powi(2)).sqrt()
    };
    let coarse = err_of(2, 1); // theta = 2
    let medium = err_of(1, 2); // theta = 0.5
    let fine = err_of(1, 8); // theta = 0.125
    assert!(fine <= medium && medium <= coarse);
    assert!(err_of(1, 4096) == 0.0);
}

#[test]
fn coincident_distinct_particle_contributes_zero_force() {
    let mut tree = Quadtree::new(Rectangle::new(0, 0, 100, 100));
    let a = Particle::with_mass(5, 5, 1);
    let b = Particle::with_mass(5, 5, 3); // same position, different mass
    tree.insert(a);
    tree.insert(b);
    let terms = tree.compute_force(&a, 0, 1);
    // b is a distinct particle, so it is listed ...
    assert_eq!(terms, vec![Contribution::Body(b)]);
    // ... but the kernel's zero-distance guard yields no force.
    assert_eq!(net_force(5.0, 5.0, 1.0, &terms), (0.0, 0.0));
}

#[test]
fn approximation_conserves_mass() {
    let mut tree = Quadtree::new(Rectangle::new(0, 0, 1024, 1024));
    let masses = [1u64, 2, 3, 4, 5, 6];
    let positions = [(1i64, 1i64), (2, 2), (1000, 3), (5, 990), (800, 800), (512, 512)];
    for (i, &(x, y)) in positions.iter().enumerate() {
        tree.insert(Particle::with_mass(x, y, masses[i]));
    }
    let active = Particle::with_mass(400, 100, 9); // not indexed
    for &(num, den) in [(0u64, 1u64), (1, 2), (2, 1), (4096, 1)].iter() {
        let terms = tree.compute_force(&active, num, den);
        let total: u64 = terms
            .iter()
            .map(|c| match c {
                Contribution::Body(q) => q.mass,
                Contribution::Cluster { mass, .. } => *mass,
            })
            .sum();
        assert_eq!(total, 21);
    }
}

#[test]
fn evaluate_all_matches_per_particle_calls() {
    let mut tree = Quadtree::new(Rectangle::new(0, 0, 100, 100));
    let particles = vec![
        Particle::with_mass(5, 5, 1),
        Particle::with_mass(5, 99, 60),
        Particle::with_mass(80, 20, 7),
    ];
    for p in particles.iter() {
        tree.insert(*p);
    }
    let all = tree.evaluate_all(&particles, 1, 2);
    assert_eq!(all.len(), particles.len());
    for (i, p) in particles.iter().enumerate() {
        assert_eq!(all[i], tree.compute_force(p, 1, 2));
    }
}
