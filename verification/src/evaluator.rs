use vstd::prelude::*;

use crate::geom::COORD_LIMIT;
use crate::particle::Particle;
use crate::particle::lemma_mass_sum_nonneg;
use crate::particle::lemma_moments_bounded;
use crate::particle::lemma_sums_concat;
use crate::particle::mass_sum;
use crate::particle::moment_x;
use crate::particle::moment_y;
use crate::quadtree::Node;
use crate::quadtree::Quadtree;
use crate::quadtree::lemma_points_in_boundary;

verus! {

/// Largest total mass a tree may carry into the force evaluator; with
/// coordinates bounded by `COORD_LIMIT` this keeps every product of
/// the opening-angle test inside `i128`.
pub const MAX_TOTAL_MASS: u64 = 0x100_0000;

/// Largest numerator and denominator of the opening angle
/// `theta = theta_num / theta_den`.
pub const THETA_LIMIT: u64 = 4096;

/// One term of the approximate net force on a particle, produced by
/// the Barnes-Hut walk.  The (unverifiable, floating-point) force
/// kernel downstream turns each term into a force vector and sums
/// them; this library proves which terms are produced.
#[derive(Clone, Copy, PartialEq, Eq, Structural, Debug)]
pub enum Contribution {
    /// An exact pairwise term: one actual particle of the tree.
    Body(Particle),
    /// A far-field term: a whole subtree of aggregate mass `mass`
    /// treated as a single body at its center of mass, the exact
    /// rational point `(wx / mass, wy / mass)`.
    Cluster { wx: i128, wy: i128, mass: u64 },
}

/// The opening-angle criterion `s / d < theta`, written over integers
/// only.  `s` is the node width, `m` the aggregate mass, `(wx, wy)`
/// the mass-weighted position sums, so the center of mass is
/// `(wx/m, wy/m)` and the distance `d` to the active particle at
/// `(px, py)` satisfies `d^2 = ((px*m - wx)^2 + (py*m - wy)^2) / m^2`.
/// Multiplying `s/d < num/den` through by the positive `d * den * m`
/// and squaring gives this equivalent polynomial form.
pub open spec fn far_enough(
    s: int,
    wx: int,
    wy: int,
    m: int,
    px: int,
    py: int,
    num: int,
    den: int,
) -> bool {
    let dx = px * m - wx;
    let dy = py * m - wy;
    let lhs = s * den * m;
    lhs * lhs < num * num * (dx * dx + dy * dy)
}

/// The exact pairwise terms of a particle sequence: one `Body` per
/// particle, in order, skipping every occurrence equal to the active
/// particle `p`.  (Self-exclusion is by value: a distinct particle at
/// the same position is kept, and contributes zero force downstream
/// through the kernel's zero-distance guard.)
pub open spec fn body_contributions(s: Seq<Particle>, p: Particle) -> Seq<Contribution>
    decreases s.len(),
{
    if s.len() == 0 {
        Seq::empty()
    } else if s.last() == p {
        body_contributions(s.drop_last(), p)
    } else {
        body_contributions(s.drop_last(), p).push(Contribution::Body(s.last()))
    }
}

/// What the Barnes-Hut walk with opening angle `num / den` produces
/// for the active particle `p`: nothing for an empty or massless
/// subtree; exact pairwise terms at a leaf; for an internal node,
/// either one aggregate term when the subtree passes the
/// opening-angle test, or the terms of all four children.
pub open spec fn contributions(t: Quadtree, p: Particle, num: int, den: int) -> Seq<Contribution>
    decreases t,
{
    match t.node {
        Node::Empty => Seq::empty(),
        Node::Leaf(bucket) => body_contributions(bucket@, p),
        Node::Internal(nw, ne, sw, se) => {
            let m = mass_sum(t.points());
            if m == 0 {
                Seq::empty()
            } else if far_enough(
                t.boundary.width as int,
                moment_x(t.points()),
                moment_y(t.points()),
                m,
                p.x as int,
                p.y as int,
                num,
                den,
            ) {
                seq![
                    Contribution::Cluster {
                        wx: moment_x(t.points()) as i128,
                        wy: moment_y(t.points()) as i128,
                        mass: m as u64,
                    },
                ]
            } else {
                contributions(*nw, p, num, den) + contributions(*ne, p, num, den)
                    + contributions(*sw, p, num, den) + contributions(*se, p, num, den)
            }
        },
    }
}

/// `|a| <= aa` and `|b| <= bb` bound the product by `aa * bb`.
proof fn lemma_mul_bound(a: int, b: int, aa: int, bb: int)
    by (nonlinear_arith)
    requires
        -aa <= a <= aa,
        -bb <= b <= bb,
    ensures
        -(aa * bb) <= a * b <= aa * bb,
{
}

proof fn lemma_body_contributions_concat(a: Seq<Particle>, b: Seq<Particle>, p: Particle)
    ensures
        body_contributions(a + b, p) == body_contributions(a, p) + body_contributions(b, p),
    decreases b.len(),
{
    if b.len() == 0 {
        assert(a + b =~= a);
        assert(body_contributions(a, p) + body_contributions(b, p) =~= body_contributions(a, p));
    } else {
        lemma_body_contributions_concat(a, b.drop_last(), p);
        assert((a + b).drop_last() =~= a + b.drop_last());
        assert((a + b).last() == b.last());
        if b.last() != p {
            assert((body_contributions(a, p) + body_contributions(b.drop_last(), p)).push(
                Contribution::Body(b.last()),
            ) =~= body_contributions(a, p) + body_contributions(b.drop_last(), p).push(
                Contribution::Body(b.last()),
            ));
        }
    }
}

proof fn lemma_body_contributions_push(s: Seq<Particle>, q: Particle, p: Particle)
    ensures
        body_contributions(s.push(q), p) == (if q == p {
            body_contributions(s, p)
        } else {
            body_contributions(s, p).push(Contribution::Body(q))
        }),
{
    assert(s.push(q).drop_last() =~= s);
    assert(s.push(q).last() == q);
}

/// A sequence of particles of positive mass and zero total mass is
/// empty.
proof fn lemma_zero_mass_empty(s: Seq<Particle>)
    requires
        mass_sum(s) == 0,
        forall|i: int| 0 <= i < s.len() ==> (#[trigger] s[i]).mass >= 1,
    ensures
        s.len() == 0,
{
    if s.len() != 0 {
        lemma_mass_sum_nonneg(s.drop_last());
        assert(s.last() == s[s.len() - 1]);
    }
}

impl Quadtree {
    /// The Barnes-Hut walk for the net force on `p`: returns exactly
    /// the terms of `contributions`, in traversal order.  With
    /// `theta_num == 0` the opening-angle test never passes and the
    /// result lists every particle of the tree other than `p` itself
    /// (see `lemma_theta_zero_is_exact`): the brute-force pairwise
    /// sum.  The test is a genuine comparison of `s / d` against
    /// `theta`; it is never short-circuited.
    pub fn compute_force(&self, p: &Particle, theta_num: u64, theta_den: u64) -> (r: Vec<
        Contribution,
    >)
        requires
            self.wf(),
            1 <= theta_den <= THETA_LIMIT,
            theta_num <= THETA_LIMIT,
            mass_sum(self.points()) <= MAX_TOTAL_MASS,
            -COORD_LIMIT <= p.x <= COORD_LIMIT,
            -COORD_LIMIT <= p.y <= COORD_LIMIT,
        ensures
            r@ == contributions(*self, *p, theta_num as int, theta_den as int),
        decreases self,
    {
        match &self.node {
            Node::Empty => {
                Vec::new()
            },
            Node::Leaf(bucket) => {
                let mut result: Vec<Contribution> = Vec::new();
                let mut i: usize = 0;
                while i < bucket.len()
                    invariant
                        0 <= i <= bucket@.len(),
                        result@ == body_contributions(bucket@.take(i as int), *p),
                    decreases bucket@.len() - i,
                {
                    proof {
                        assert(bucket@.take(i + 1) =~= bucket@.take(i as int).push(bucket@[i as int]));
                        lemma_body_contributions_push(bucket@.take(i as int), bucket@[i as int], *p);
                    }
                    let q = bucket[i];
                    if !(q.x == p.x && q.y == p.y && q.mass == p.mass) {
                        result.push(Contribution::Body(q));
                    }
                    i += 1;
                }
                proof {
                    assert(bucket@.take(bucket@.len() as int) =~= bucket@);
                }
                result
            },
            Node::Internal(nw, ne, sw, se) => {
                proof {
                    lemma_points_in_boundary(*self);
                    lemma_moments_bounded(self.points());
                    lemma_mass_sum_nonneg(self.points());
                }
                let com = self.get_center_of_mass();
                let wx = com.0;
                let wy = com.1;
                let m = com.2;
                if m == 0 {
                    Vec::new()
                } else {
                    let mi = m as i128;
                    proof {
                        lemma_mul_bound(p.x as int, m as int, COORD_LIMIT as int, MAX_TOTAL_MASS as int);
                        lemma_mul_bound(p.y as int, m as int, COORD_LIMIT as int, MAX_TOTAL_MASS as int);
                        lemma_mul_bound(
                            COORD_LIMIT as int,
                            mass_sum(self.points()),
                            COORD_LIMIT as int,
                            MAX_TOTAL_MASS as int,
                        );
                        assert(COORD_LIMIT as int == 0x100_0000);
                        assert(MAX_TOTAL_MASS as int == 0x100_0000);
                        assert((-(COORD_LIMIT as int)) * mass_sum(self.points()) == -((
                        COORD_LIMIT as int) * mass_sum(self.points()))) by (nonlinear_arith);
                        assert((COORD_LIMIT as int) * (MAX_TOTAL_MASS as int) == 0x1_0000_0000_0000)
                            by (nonlinear_arith)
                            requires
                                COORD_LIMIT as int == 0x100_0000,
                                MAX_TOTAL_MASS as int == 0x100_0000,
                        ;
                        assert(-0x1_0000_0000_0000 <= wx as int <= 0x1_0000_0000_0000);
                        assert(-0x1_0000_0000_0000 <= wy as int <= 0x1_0000_0000_0000);
                    }
                    let dx = (p.x as i128) * mi - wx;
                    let dy = (p.y as i128) * mi - wy;
                    proof {
                        lemma_mul_bound(dx as int, dx as int, 0x2_0000_0000_0000 as int, 0x2_0000_0000_0000 as int);
                        lemma_mul_bound(dy as int, dy as int, 0x2_0000_0000_0000 as int, 0x2_0000_0000_0000 as int);
                    }
                    let d2 = dx * dx + dy * dy;
                    let tn = theta_num as i128;
                    proof {
                        lemma_mul_bound(tn as int, tn as int, THETA_LIMIT as int, THETA_LIMIT as int);
                    }
                    let tt = tn * tn;
                    proof {
                        lemma_mul_bound(
                            tt as int,
                            d2 as int,
                            0x100_0000 as int,
                            0x8_0000_0000_0000_0000_0000_0000 as int,
                        );
                    }
                    let rhs = tt * d2;
                    proof {
                        lemma_mul_bound(
                            self.boundary.width as int,
                            theta_den as int,
                            0x200_0000 as int,
                            THETA_LIMIT as int,
                        );
                    }
                    let lhs0 = (self.boundary.width as i128) * (theta_den as i128);
                    proof {
                        lemma_mul_bound(lhs0 as int, m as int, 0x20_0000_0000 as int, MAX_TOTAL_MASS as int);
                    }
                    let lhs1 = lhs0 * mi;
                    proof {
                        lemma_mul_bound(
                            lhs1 as int,
                            lhs1 as int,
                            0x2000_0000_0000_0000 as int,
                            0x2000_0000_0000_0000 as int,
                        );
                    }
                    let lhs = lhs1 * lhs1;
                    if lhs < rhs {
                        let mut result: Vec<Contribution> = Vec::new();
                        result.push(Contribution::Cluster { wx, wy, mass: m });
                        proof {
                            assert(result@ =~= contributions(
                                *self,
                                *p,
                                theta_num as int,
                                theta_den as int,
                            ));
                        }
                        result
                    } else {
                        proof {
                            lemma_sums_concat(nw.points(), ne.points());
                            lemma_sums_concat(nw.points() + ne.points(), sw.points());
                            lemma_sums_concat(nw.points() + ne.points() + sw.points(), se.points());
                            lemma_mass_sum_nonneg(nw.points());
                            lemma_mass_sum_nonneg(ne.points());
                            lemma_mass_sum_nonneg(sw.points());
                            lemma_mass_sum_nonneg(se.points());
                        }
                        let mut r1 = nw.compute_force(p, theta_num, theta_den);
                        let mut r2 = ne.compute_force(p, theta_num, theta_den);
                        let mut r3 = sw.compute_force(p, theta_num, theta_den);
                        let mut r4 = se.compute_force(p, theta_num, theta_den);
                        r1.append(&mut r2);
                        r1.append(&mut r3);
                        r1.append(&mut r4);
                        r1
                    }
                }
            },
        }
    }

    /// The batch entry point for a driver: the Barnes-Hut terms for
    /// each particle of `particles` against this tree, in input order.
    pub fn evaluate_all(&self, particles: &Vec<Particle>, theta_num: u64, theta_den: u64) -> (r:
        Vec<Vec<Contribution>>)
        requires
            self.wf(),
            1 <= theta_den <= THETA_LIMIT,
            theta_num <= THETA_LIMIT,
            mass_sum(self.points()) <= MAX_TOTAL_MASS,
            forall|i: int|
                0 <= i < particles@.len() ==> {
                    &&& -COORD_LIMIT <= (#[trigger] particles@[i]).x <= COORD_LIMIT
                    &&& -COORD_LIMIT <= particles@[i].y <= COORD_LIMIT
                },
        ensures
            r@.len() == particles@.len(),
            forall|i: int|
                0 <= i < particles@.len() ==> (#[trigger] r@[i])@ == contributions(
                    *self,
                    particles@[i],
                    theta_num as int,
                    theta_den as int,
                ),
    {
        let mut result: Vec<Vec<Contribution>> = Vec::new();
        let mut i: usize = 0;
        while i < particles.len()
            invariant
                0 <= i <= particles@.len(),
                self.wf(),
                1 <= theta_den <= THETA_LIMIT,
                theta_num <= THETA_LIMIT,
                mass_sum(self.points()) <= MAX_TOTAL_MASS,
                forall|j: int|
                    0 <= j < particles@.len() ==> {
                        &&& -COORD_LIMIT <= (#[trigger] particles@[j]).x <= COORD_LIMIT
                        &&& -COORD_LIMIT <= particles@[j].y <= COORD_LIMIT
                    },
                result@.len() == i,
                forall|j: int|
                    0 <= j < i ==> (#[trigger] result@[j])@ == contributions(
                        *self,
                        particles@[j],
                        theta_num as int,
                        theta_den as int,
                    ),
            decreases particles@.len() - i,
        {
            let p = particles[i];
            let terms = self.compute_force(&p, theta_num, theta_den);
            result.push(terms);
            i += 1;
        }
        result
    }
}

/// Total mass carried by a sequence of force terms: each pairwise
/// term counts its particle's mass, each aggregate its cluster mass.
pub open spec fn contributions_mass(s: Seq<Contribution>) -> int
    decreases s.len(),
{
    if s.len() == 0 {
        0
    } else {
        contributions_mass(s.drop_last()) + (match s.last() {
            Contribution::Body(q) => q.mass as int,
            Contribution::Cluster { mass, .. } => mass as int,
        })
    }
}

proof fn lemma_contributions_mass_concat(a: Seq<Contribution>, b: Seq<Contribution>)
    ensures
        contributions_mass(a + b) == contributions_mass(a) + contributions_mass(b),
    decreases b.len(),
{
    if b.len() == 0 {
        assert(a + b =~= a);
    } else {
        lemma_contributions_mass_concat(a, b.drop_last());
        assert((a + b).drop_last() =~= a + b.drop_last());
        assert((a + b).last() == b.last());
    }
}

proof fn lemma_body_contributions_mass(s: Seq<Particle>, p: Particle)
    requires
        !s.contains(p),
    ensures
        contributions_mass(body_contributions(s, p)) == mass_sum(s),
    decreases s.len(),
{
    if s.len() != 0 {
        assert(s.last() == s[s.len() - 1]);
        assert(forall|i: int| 0 <= i < s.drop_last().len() ==> s.drop_last()[i] == s[i]);
        lemma_body_contributions_mass(s.drop_last(), p);
        assert(body_contributions(s, p).drop_last() == body_contributions(s.drop_last(), p));
    }
}

/// The walk loses no mass to the approximation: for an active
/// particle that is not itself indexed, the masses of the returned
/// terms sum exactly to the tree's total mass, whatever the opening
/// angle.  Each particle of the tree is accounted for in exactly one
/// term, pairwise or aggregate.
pub proof fn lemma_contributions_conserve_mass(t: Quadtree, p: Particle, num: int, den: int)
    requires
        t.wf(),
        !t.points().contains(p),
        mass_sum(t.points()) <= u64::MAX,
    ensures
        contributions_mass(contributions(t, p, num, den)) == mass_sum(t.points()),
    decreases t,
{
    match t.node {
        Node::Empty => {},
        Node::Leaf(bucket) => {
            lemma_body_contributions_mass(bucket@, p);
        },
        Node::Internal(nw, ne, sw, se) => {
            let m = mass_sum(t.points());
            lemma_mass_sum_nonneg(t.points());
            if m == 0 {
            } else if far_enough(
                t.boundary.width as int,
                moment_x(t.points()),
                moment_y(t.points()),
                m,
                p.x as int,
                p.y as int,
                num,
                den,
            ) {
                let c = contributions(t, p, num, den);
                assert(c.len() == 1);
                assert(c.last() == Contribution::Cluster {
                    wx: moment_x(t.points()) as i128,
                    wy: moment_y(t.points()) as i128,
                    mass: m as u64,
                });
                assert((m as u64) as int == m);
                assert(c.drop_last() =~= Seq::<Contribution>::empty());
                assert(contributions_mass(c.drop_last()) == 0);
            } else {
                let s1 = nw.points();
                let s2 = ne.points();
                let s3 = sw.points();
                let s4 = se.points();
                lemma_sums_concat(s1, s2);
                lemma_sums_concat(s1 + s2, s3);
                lemma_sums_concat(s1 + s2 + s3, s4);
                lemma_mass_sum_nonneg(s1);
                lemma_mass_sum_nonneg(s2);
                lemma_mass_sum_nonneg(s3);
                lemma_mass_sum_nonneg(s4);
                assert(t.points() == s1 + s2 + s3 + s4);
                assert(!s1.contains(p)) by {
                    if s1.contains(p) {
                        let i = choose|i: int| 0 <= i < s1.len() && s1[i] == p;
                        assert(t.points()[i] == p);
                    }
                }
                assert(!s2.contains(p)) by {
                    if s2.contains(p) {
                        let i = choose|i: int| 0 <= i < s2.len() && s2[i] == p;
                        assert(t.points()[s1.len() + i] == p);
                    }
                }
                assert(!s3.contains(p)) by {
                    if s3.contains(p) {
                        let i = choose|i: int| 0 <= i < s3.len() && s3[i] == p;
                        assert(t.points()[s1.len() + s2.len() + i] == p);
                    }
                }
                assert(!s4.contains(p)) by {
                    if s4.contains(p) {
                        let i = choose|i: int| 0 <= i < s4.len() && s4[i] == p;
                        assert(t.points()[s1.len() + s2.len() + s3.len() + i] == p);
                    }
                }
                lemma_contributions_conserve_mass(*nw, p, num, den);
                lemma_contributions_conserve_mass(*ne, p, num, den);
                lemma_contributions_conserve_mass(*sw, p, num, den);
                lemma_contributions_conserve_mass(*se, p, num, den);
                lemma_contributions_mass_concat(
                    contributions(*nw, p, num, den),
                    contributions(*ne, p, num, den),
                );
                lemma_contributions_mass_concat(
                    contributions(*nw, p, num, den) + contributions(*ne, p, num, den),
                    contributions(*sw, p, num, den),
                );
                lemma_contributions_mass_concat(
                    contributions(*nw, p, num, den) + contributions(*ne, p, num, den)
                        + contributions(*sw, p, num, den),
                    contributions(*se, p, num, den),
                );
            }
        },
    }
}

/// With a zero opening angle the walk never approximates: it returns
/// exactly one pairwise term per particle of the tree other than the
/// active particle itself.  This is the discrete core of the
/// convergence of the approximation toward the brute-force pairwise
/// sum as theta shrinks.
pub proof fn lemma_theta_zero_is_exact(t: Quadtree, p: Particle, den: int)
    requires
        t.wf(),
    ensures
        contributions(t, p, 0, den) == body_contributions(t.points(), p),
    decreases t,
{
    match t.node {
        Node::Empty => {},
        Node::Leaf(bucket) => {},
        Node::Internal(nw, ne, sw, se) => {
            let m = mass_sum(t.points());
            lemma_mass_sum_nonneg(t.points());
            if m == 0 {
                lemma_points_in_boundary(t);
                lemma_zero_mass_empty(t.points());
                assert(body_contributions(t.points(), p) =~= Seq::<Contribution>::empty());
            } else {
                let s = t.boundary.width as int;
                let lhs = s * den * m;
                assert(!far_enough(
                    s,
                    moment_x(t.points()),
                    moment_y(t.points()),
                    m,
                    p.x as int,
                    p.y as int,
                    0,
                    den,
                )) by {
                    assert(0 <= lhs * lhs) by (nonlinear_arith);
                }
                lemma_theta_zero_is_exact(*nw, p, den);
                lemma_theta_zero_is_exact(*ne, p, den);
                lemma_theta_zero_is_exact(*sw, p, den);
                lemma_theta_zero_is_exact(*se, p, den);
                lemma_body_contributions_concat(nw.points(), ne.points(), p);
                lemma_body_contributions_concat(nw.points() + ne.points(), sw.points(), p);
                lemma_body_contributions_concat(
                    nw.points() + ne.points() + sw.points(),
                    se.points(),
                    p,
                );
            }
        },
    }
}

} // verus!
