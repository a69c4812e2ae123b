use vstd::prelude::*;

use crate::geom::Rectangle;
use crate::geom::lemma_common_point_intersects;
use crate::geom::lemma_quadrant_in_parent;
use crate::geom::lemma_quadrants_cover;
use crate::particle::Particle;
use crate::particle::lemma_mass_sum_nonneg;
use crate::particle::lemma_mass_sum_take_le;
use crate::particle::lemma_moments_bounded;
use crate::particle::lemma_sums_concat;
use crate::particle::lemma_sums_push;
use crate::particle::mass_sum;
use crate::particle::moment_x;
use crate::particle::moment_y;

verus! {

/// How many times a root node may be subdivided.  Distinct integer
/// positions are separated after at most 26 splits of a maximal world
/// boundary, so only exactly coincident particles ever reach the
/// bottom; there they share one leaf bucket instead of recursing
/// without end.
pub const DEPTH_LIMIT: u32 = 64;

/// The state of one quadtree node: no particle, one leaf bucket, or
/// four child subtrees tiling the boundary.  A node only ever moves
/// from `Empty` to `Leaf` to `Internal`.  A leaf bucket holds exactly
/// one particle unless the node has exhausted its subdivision budget,
/// in which case it co-locates every (coincident) particle routed to
/// it.
pub enum Node {
    Empty,
    Leaf(Vec<Particle>),
    Internal(Box<Quadtree>, Box<Quadtree>, Box<Quadtree>, Box<Quadtree>),
}

/// A spatial index over point masses bounded by `boundary`.
/// Aggregated mass and center of mass are not stored: they are
/// computed on demand by recursive aggregation over the subtree.
pub struct Quadtree {
    pub boundary: Rectangle,
    pub splits_left: u32,
    pub node: Node,
}

/// Reports what `insert` did with the particle, so that no particle is
/// ever lost silently.
#[derive(Clone, Copy, PartialEq, Eq, Structural, Debug)]
pub enum InsertOutcome {
    /// The particle is now indexed.
    Inserted,
    /// The position lies outside this node's boundary; nothing changed.
    Dropped,
    /// The mass is zero, which gravitational force math rejects;
    /// nothing changed.
    InvalidMass,
}

impl Quadtree {
    /// Every particle in the subtree, in depth-first NW, NE, SW, SE
    /// order.  This sequence is the mathematical content of the tree:
    /// every public contract speaks of it.
    pub open spec fn points(self) -> Seq<Particle>
        decreases self,
    {
        match self.node {
            Node::Empty => Seq::empty(),
            Node::Leaf(bucket) => bucket@,
            Node::Internal(nw, ne, sw, se) => nw.points() + ne.points() + sw.points()
                + se.points(),
        }
    }

    /// Structural well-formedness: the boundary is a valid world
    /// rectangle; a leaf holds at least one contained, positive-mass
    /// particle and at most one while splits remain; an internal node
    /// has a split budget and four well-formed children over exactly
    /// the four quadrants, each with one split less.
    pub open spec fn wf(self) -> bool
        decreases self,
    {
        &&& self.boundary.wf()
        &&& match self.node {
            Node::Empty => true,
            Node::Leaf(bucket) => {
                &&& 1 <= bucket@.len()
                &&& self.splits_left > 0 ==> bucket@.len() == 1
                &&& forall|i: int|
                    0 <= i < bucket@.len() ==> {
                        &&& self.boundary.spec_contains(
                            (#[trigger] bucket@[i]).x as int,
                            bucket@[i].y as int,
                        )
                        &&& bucket@[i].mass >= 1
                    }
            },
            Node::Internal(nw, ne, sw, se) => {
                &&& self.splits_left >= 1
                &&& nw.wf() && ne.wf() && sw.wf() && se.wf()
                &&& nw.boundary == self.boundary.spec_nw()
                &&& ne.boundary == self.boundary.spec_ne()
                &&& sw.boundary == self.boundary.spec_sw()
                &&& se.boundary == self.boundary.spec_se()
                &&& nw.splits_left == self.splits_left - 1
                &&& ne.splits_left == self.splits_left - 1
                &&& sw.splits_left == self.splits_left - 1
                &&& se.splits_left == self.splits_left - 1
            },
        }
    }

    /// A fresh, empty tree over `boundary` with the full subdivision
    /// budget.
    pub fn new(boundary: Rectangle) -> (r: Quadtree)
        requires
            boundary.wf(),
        ensures
            r.wf(),
            r.boundary == boundary,
            r.splits_left == DEPTH_LIMIT,
            r.points() == Seq::<Particle>::empty(),
    {
        Quadtree { boundary, splits_left: DEPTH_LIMIT, node: Node::Empty }
    }
}

/// Takes the node out, leaving `Empty` behind, so that the caller can
/// rebuild it by value.
fn take_node(n: &mut Node) -> (r: Node)
    ensures
        r == *old(n),
{
    let mut tmp = Node::Empty;
    core::mem::swap(n, &mut tmp);
    tmp
}

/// The particles of four sibling subtrees, in traversal order.
spec fn sibling_points(nw: Quadtree, ne: Quadtree, sw: Quadtree, se: Quadtree) -> Seq<
    Particle,
> {
    nw.points() + ne.points() + sw.points() + se.points()
}

/// Routes `p` into the first of the four sibling subtrees whose
/// boundary contains it.  The siblings together gain exactly `p`.
fn route_insert(
    nw: &mut Quadtree,
    ne: &mut Quadtree,
    sw: &mut Quadtree,
    se: &mut Quadtree,
    p: Particle,
) -> (r: InsertOutcome)
    requires
        old(nw).wf(),
        old(ne).wf(),
        old(sw).wf(),
        old(se).wf(),
        old(ne).splits_left == old(nw).splits_left,
        old(sw).splits_left == old(nw).splits_left,
        old(se).splits_left == old(nw).splits_left,
        p.mass >= 1,
        old(nw).boundary.spec_contains(p.x as int, p.y as int) || old(ne).boundary.spec_contains(
            p.x as int,
            p.y as int,
        ) || old(sw).boundary.spec_contains(p.x as int, p.y as int)
            || old(se).boundary.spec_contains(p.x as int, p.y as int),
    ensures
        r == InsertOutcome::Inserted,
        final(nw).wf() && final(ne).wf() && final(sw).wf() && final(se).wf(),
        final(nw).boundary == old(nw).boundary,
        final(ne).boundary == old(ne).boundary,
        final(sw).boundary == old(sw).boundary,
        final(se).boundary == old(se).boundary,
        final(nw).splits_left == old(nw).splits_left,
        final(ne).splits_left == old(ne).splits_left,
        final(sw).splits_left == old(sw).splits_left,
        final(se).splits_left == old(se).splits_left,
        sibling_points(*final(nw), *final(ne), *final(sw), *final(se)).to_multiset()
            == sibling_points(*old(nw), *old(ne), *old(sw), *old(se)).to_multiset().insert(p),
        mass_sum(sibling_points(*final(nw), *final(ne), *final(sw), *final(se))) == mass_sum(
            sibling_points(*old(nw), *old(ne), *old(sw), *old(se)),
        ) + p.mass,
        moment_x(sibling_points(*final(nw), *final(ne), *final(sw), *final(se))) == moment_x(
            sibling_points(*old(nw), *old(ne), *old(sw), *old(se)),
        ) + p.x * p.mass,
        moment_y(sibling_points(*final(nw), *final(ne), *final(sw), *final(se))) == moment_y(
            sibling_points(*old(nw), *old(ne), *old(sw), *old(se)),
        ) + p.y * p.mass,
    decreases old(nw).splits_left, 1int,
{
    proof {
        let s1 = old(nw).points();
        let s2 = old(ne).points();
        let s3 = old(sw).points();
        let s4 = old(se).points();
        vstd::seq_lib::lemma_multiset_commutative(s1, s2);
        vstd::seq_lib::lemma_multiset_commutative(s1 + s2, s3);
        vstd::seq_lib::lemma_multiset_commutative(s1 + s2 + s3, s4);
        lemma_sums_concat(s1, s2);
        lemma_sums_concat(s1 + s2, s3);
        lemma_sums_concat(s1 + s2 + s3, s4);
    }
    let r = if nw.boundary.contains(p.x, p.y) {
        nw.insert(p)
    } else if ne.boundary.contains(p.x, p.y) {
        ne.insert(p)
    } else if sw.boundary.contains(p.x, p.y) {
        sw.insert(p)
    } else {
        se.insert(p)
    };
    proof {
        let s1 = nw.points();
        let s2 = ne.points();
        let s3 = sw.points();
        let s4 = se.points();
        vstd::seq_lib::lemma_multiset_commutative(s1, s2);
        vstd::seq_lib::lemma_multiset_commutative(s1 + s2, s3);
        vstd::seq_lib::lemma_multiset_commutative(s1 + s2 + s3, s4);
        lemma_sums_concat(s1, s2);
        lemma_sums_concat(s1 + s2, s3);
        lemma_sums_concat(s1 + s2 + s3, s4);
        assert(sibling_points(*nw, *ne, *sw, *se).to_multiset() =~= sibling_points(
            *old(nw),
            *old(ne),
            *old(sw),
            *old(se),
        ).to_multiset().insert(p));
    }
    r
}

impl Quadtree {
    /// Inserts `p`, reporting exactly what happened: a zero mass is
    /// rejected, a position outside the boundary is dropped, anything
    /// else is indexed.  On success the indexed multiset gains exactly
    /// `p`; otherwise the tree is unchanged.  Total mass and both
    /// moments change by exactly `p`'s contribution.
    pub fn insert(&mut self, p: Particle) -> (r: InsertOutcome)
        requires
            old(self).wf(),
        ensures
            final(self).wf(),
            final(self).boundary == old(self).boundary,
            final(self).splits_left == old(self).splits_left,
            r == (if p.mass == 0 {
                InsertOutcome::InvalidMass
            } else if !old(self).boundary.spec_contains(p.x as int, p.y as int) {
                InsertOutcome::Dropped
            } else {
                InsertOutcome::Inserted
            }),
            r == InsertOutcome::Inserted ==> final(self).points().to_multiset() == old(
                self).points().to_multiset().insert(p),
            r != InsertOutcome::Inserted ==> final(self).points() == old(self).points(),
            mass_sum(final(self).points()) == mass_sum(old(self).points()) + (if r
                == InsertOutcome::Inserted {
                p.mass as int
            } else {
                0
            }),
            moment_x(final(self).points()) == moment_x(old(self).points()) + (if r
                == InsertOutcome::Inserted {
                p.x * p.mass
            } else {
                0
            }),
            moment_y(final(self).points()) == moment_y(old(self).points()) + (if r
                == InsertOutcome::Inserted {
                p.y * p.mass
            } else {
                0
            }),
        decreases old(self).splits_left, 0int,
    {
        broadcast use vstd::seq_lib::group_to_multiset_ensures;

        if p.mass == 0 {
            return InsertOutcome::InvalidMass;
        }
        if !self.boundary.contains(p.x, p.y) {
            return InsertOutcome::Dropped;
        }
        let ghost old_points = self.points();
        let node = take_node(&mut self.node);
        match node {
            Node::Empty => {
                let mut bucket: Vec<Particle> = Vec::new();
                bucket.push(p);
                self.node = Node::Leaf(bucket);
                proof {
                    assert(old_points =~= Seq::<Particle>::empty());
                    assert(self.points() =~= Seq::<Particle>::empty().push(p));
                    lemma_sums_push(Seq::<Particle>::empty(), p);
                    assert(self.points().to_multiset() =~= old_points.to_multiset().insert(p));
                }
                InsertOutcome::Inserted
            },
            Node::Leaf(mut bucket) => {
                if self.splits_left == 0 {
                    bucket.push(p);
                    self.node = Node::Leaf(bucket);
                    proof {
                        assert(self.points() == old_points.push(p));
                        lemma_sums_push(old_points, p);
                    }
                    InsertOutcome::Inserted
                } else {
                    let q = bucket[0];
                    let mut nw = Quadtree {
                        boundary: self.boundary.nw_quadrant(),
                        splits_left: self.splits_left - 1,
                        node: Node::Empty,
                    };
                    let mut ne = Quadtree {
                        boundary: self.boundary.ne_quadrant(),
                        splits_left: self.splits_left - 1,
                        node: Node::Empty,
                    };
                    let mut sw = Quadtree {
                        boundary: self.boundary.sw_quadrant(),
                        splits_left: self.splits_left - 1,
                        node: Node::Empty,
                    };
                    let mut se = Quadtree {
                        boundary: self.boundary.se_quadrant(),
                        splits_left: self.splits_left - 1,
                        node: Node::Empty,
                    };
                    proof {
                        lemma_quadrants_cover(self.boundary, q.x as int, q.y as int);
                        assert(sibling_points(nw, ne, sw, se) =~= Seq::<Particle>::empty());
                    }
                    let _ = route_insert(&mut nw, &mut ne, &mut sw, &mut se, q);
                    proof {
                        lemma_quadrants_cover(self.boundary, p.x as int, p.y as int);
                    }
                    let _ = route_insert(&mut nw, &mut ne, &mut sw, &mut se, p);
                    let ghost mid = sibling_points(nw, ne, sw, se);
                    self.node = Node::Internal(Box::new(nw), Box::new(ne), Box::new(sw), Box::new(se));
                    proof {
                        assert(self.points() == mid);
                        assert(old_points =~= Seq::<Particle>::empty().push(q));
                        lemma_sums_push(Seq::<Particle>::empty(), q);
                        assert(self.points().to_multiset() =~= old_points.to_multiset().insert(p));
                    }
                    InsertOutcome::Inserted
                }
            },
            Node::Internal(nw_box, ne_box, sw_box, se_box) => {
                let mut nw = *nw_box;
                let mut ne = *ne_box;
                let mut sw = *sw_box;
                let mut se = *se_box;
                proof {
                    lemma_quadrants_cover(self.boundary, p.x as int, p.y as int);
                    assert(old_points == sibling_points(nw, ne, sw, se));
                }
                let _ = route_insert(&mut nw, &mut ne, &mut sw, &mut se, p);
                let ghost mid = sibling_points(nw, ne, sw, se);
                self.node = Node::Internal(Box::new(nw), Box::new(ne), Box::new(sw), Box::new(se));
                proof {
                    assert(self.points() == mid);
                }
                InsertOutcome::Inserted
            },
        }
    }
}

/// The subsequence of `s` whose positions lie in `range`, in order.
pub open spec fn in_range_filter(range: Rectangle, s: Seq<Particle>) -> Seq<Particle>
    decreases s.len(),
{
    if s.len() == 0 {
        Seq::empty()
    } else if range.spec_contains(s.last().x as int, s.last().y as int) {
        in_range_filter(range, s.drop_last()).push(s.last())
    } else {
        in_range_filter(range, s.drop_last())
    }
}

pub proof fn lemma_in_range_filter_concat(range: Rectangle, a: Seq<Particle>, b: Seq<Particle>)
    ensures
        in_range_filter(range, a + b) == in_range_filter(range, a) + in_range_filter(range, b),
    decreases b.len(),
{
    if b.len() == 0 {
        assert(a + b =~= a);
        assert(in_range_filter(range, a) + in_range_filter(range, b) =~= in_range_filter(
            range,
            a,
        ));
    } else {
        lemma_in_range_filter_concat(range, a, b.drop_last());
        assert((a + b).drop_last() =~= a + b.drop_last());
        assert((a + b).last() == b.last());
        if range.spec_contains(b.last().x as int, b.last().y as int) {
            assert((in_range_filter(range, a) + in_range_filter(range, b.drop_last())).push(
                b.last(),
            ) =~= in_range_filter(range, a) + in_range_filter(range, b.drop_last()).push(
                b.last(),
            ));
        }
    }
}

pub proof fn lemma_in_range_filter_push(range: Rectangle, s: Seq<Particle>, p: Particle)
    ensures
        in_range_filter(range, s.push(p)) == (if range.spec_contains(p.x as int, p.y as int) {
            in_range_filter(range, s).push(p)
        } else {
            in_range_filter(range, s)
        }),
{
    assert(s.push(p).drop_last() =~= s);
    assert(s.push(p).last() == p);
}

pub proof fn lemma_in_range_filter_all_out(range: Rectangle, s: Seq<Particle>)
    requires
        forall|i: int|
            0 <= i < s.len() ==> !range.spec_contains(
                (#[trigger] s[i]).x as int,
                s[i].y as int,
            ),
    ensures
        in_range_filter(range, s) == Seq::<Particle>::empty(),
    decreases s.len(),
{
    if s.len() != 0 {
        lemma_in_range_filter_all_out(range, s.drop_last());
        assert(s.last() == s[s.len() - 1]);
    }
}

impl Quadtree {
    /// All particles of the subtree whose positions lie in `range`, in
    /// depth-first traversal order.  Subtrees whose boundary does not
    /// overlap `range` are pruned without being visited.  The result
    /// is exactly the in-range subsequence of `points()`: nothing
    /// outside `range` appears, and nothing inside it is missed.
    pub fn query(&self, range: &Rectangle) -> (r: Vec<Particle>)
        requires
            self.wf(),
            range.wf(),
        ensures
            r@ == in_range_filter(*range, self.points()),
        decreases self,
    {
        let mut result: Vec<Particle> = Vec::new();
        if !self.boundary.intersects(range) {
            proof {
                lemma_points_in_boundary(*self);
                assert forall|i: int| 0 <= i < self.points().len() implies !range.spec_contains(
                    (#[trigger] self.points()[i]).x as int,
                    self.points()[i].y as int,
                ) by {
                    let p = self.points()[i];
                    if range.spec_contains(p.x as int, p.y as int) {
                        lemma_common_point_intersects(self.boundary, *range, p.x as int, p.y as int);
                    }
                }
                lemma_in_range_filter_all_out(*range, self.points());
            }
            return result;
        }
        match &self.node {
            Node::Empty => {
                result
            },
            Node::Leaf(bucket) => {
                let mut i: usize = 0;
                while i < bucket.len()
                    invariant
                        0 <= i <= bucket@.len(),
                        range.wf(),
                        result@ == in_range_filter(*range, bucket@.take(i as int)),
                    decreases bucket@.len() - i,
                {
                    proof {
                        assert(bucket@.take(i + 1) =~= bucket@.take(i as int).push(bucket@[i as int]));
                        lemma_in_range_filter_push(*range, bucket@.take(i as int), bucket@[i as int]);
                    }
                    let p = bucket[i];
                    if range.contains(p.x, p.y) {
                        result.push(p);
                    }
                    i += 1;
                }
                proof {
                    assert(bucket@.take(bucket@.len() as int) =~= bucket@);
                }
                result
            },
            Node::Internal(nw, ne, sw, se) => {
                let mut r1 = nw.query(range);
                let mut r2 = ne.query(range);
                let mut r3 = sw.query(range);
                let mut r4 = se.query(range);
                proof {
                    lemma_in_range_filter_concat(*range, nw.points(), ne.points());
                    lemma_in_range_filter_concat(*range, nw.points() + ne.points(), sw.points());
                    lemma_in_range_filter_concat(
                        *range,
                        nw.points() + ne.points() + sw.points(),
                        se.points(),
                    );
                }
                r1.append(&mut r2);
                r1.append(&mut r3);
                r1.append(&mut r4);
                r1
            },
        }
    }

    /// Every particle currently indexed, in depth-first NW, NE, SW, SE
    /// order: the executable image of `points()`.
    pub fn get_points(&self) -> (r: Vec<Particle>)
        requires
            self.wf(),
        ensures
            r@ == self.points(),
        decreases self,
    {
        match &self.node {
            Node::Empty => {
                Vec::new()
            },
            Node::Leaf(bucket) => {
                let mut result: Vec<Particle> = Vec::new();
                let mut i: usize = 0;
                while i < bucket.len()
                    invariant
                        0 <= i <= bucket@.len(),
                        result@ == bucket@.take(i as int),
                    decreases bucket@.len() - i,
                {
                    proof {
                        assert(bucket@.take(i + 1) =~= bucket@.take(i as int).push(bucket@[i as int]));
                    }
                    result.push(bucket[i]);
                    i += 1;
                }
                proof {
                    assert(bucket@.take(bucket@.len() as int) =~= bucket@);
                }
                result
            },
            Node::Internal(nw, ne, sw, se) => {
                let mut r1 = nw.get_points();
                let mut r2 = ne.get_points();
                let mut r3 = sw.get_points();
                let mut r4 = se.get_points();
                r1.append(&mut r2);
                r1.append(&mut r3);
                r1.append(&mut r4);
                r1
            },
        }
    }
}

impl Quadtree {
    /// Total mass of the subtree, computed recursively bottom-up: the
    /// sum of the masses of every indexed particle.
    pub fn get_total_mass(&self) -> (r: u64)
        requires
            self.wf(),
            mass_sum(self.points()) <= u64::MAX,
        ensures
            r as int == mass_sum(self.points()),
        decreases self,
    {
        match &self.node {
            Node::Empty => {
                0
            },
            Node::Leaf(bucket) => {
                let mut total: u64 = 0;
                let mut i: usize = 0;
                while i < bucket.len()
                    invariant
                        0 <= i <= bucket@.len(),
                        total as int == mass_sum(bucket@.take(i as int)),
                        mass_sum(bucket@) <= u64::MAX,
                    decreases bucket@.len() - i,
                {
                    proof {
                        assert(bucket@.take(i + 1) =~= bucket@.take(i as int).push(bucket@[i as int]));
                        lemma_sums_push(bucket@.take(i as int), bucket@[i as int]);
                        lemma_mass_sum_take_le(bucket@, i + 1);
                    }
                    total = total + bucket[i].mass;
                    i += 1;
                }
                proof {
                    assert(bucket@.take(bucket@.len() as int) =~= bucket@);
                }
                total
            },
            Node::Internal(nw, ne, sw, se) => {
                proof {
                    lemma_sums_concat(nw.points(), ne.points());
                    lemma_sums_concat(nw.points() + ne.points(), sw.points());
                    lemma_sums_concat(nw.points() + ne.points() + sw.points(), se.points());
                    lemma_mass_sum_nonneg(nw.points());
                    lemma_mass_sum_nonneg(ne.points());
                    lemma_mass_sum_nonneg(sw.points());
                    lemma_mass_sum_nonneg(se.points());
                }
                let m1 = nw.get_total_mass();
                let m2 = ne.get_total_mass();
                let m3 = sw.get_total_mass();
                let m4 = se.get_total_mass();
                m1 + m2 + m3 + m4
            },
        }
    }

    /// Mass-weighted position sums of the subtree plus its aggregate
    /// mass, computed recursively bottom-up.  For a result
    /// `(wx, wy, m)` with `m > 0` the center of mass is the exact
    /// rational point `(wx / m, wy / m)`; an empty subtree yields
    /// `(0, 0, 0)`.  This is the single-point summary used when a
    /// whole subtree is treated as one distant body.
    pub fn get_center_of_mass(&self) -> (r: (i128, i128, u64))
        requires
            self.wf(),
            mass_sum(self.points()) <= u64::MAX,
        ensures
            r.0 == moment_x(self.points()),
            r.1 == moment_y(self.points()),
            r.2 as int == mass_sum(self.points()),
        decreases self,
    {
        proof {
            lemma_points_in_boundary(*self);
            lemma_moments_bounded(self.points());
        }
        match &self.node {
            Node::Empty => {
                (0, 0, 0)
            },
            Node::Leaf(bucket) => {
                let mut wx: i128 = 0;
                let mut wy: i128 = 0;
                let mut total: u64 = 0;
                let mut i: usize = 0;
                proof {
                    assert(bucket@ == self.points());
                }
                while i < bucket.len()
                    invariant
                        0 <= i <= bucket@.len(),
                        wx as int == moment_x(bucket@.take(i as int)),
                        wy as int == moment_y(bucket@.take(i as int)),
                        total as int == mass_sum(bucket@.take(i as int)),
                        mass_sum(bucket@) <= u64::MAX,
                        forall|j: int|
                            0 <= j < bucket@.len() ==> {
                                &&& -(crate::geom::COORD_LIMIT as int) <= (
                                #[trigger] bucket@[j]).x <= crate::geom::COORD_LIMIT as int
                                &&& -(crate::geom::COORD_LIMIT as int) <= bucket@[j].y
                                    <= crate::geom::COORD_LIMIT as int
                            },
                    decreases bucket@.len() - i,
                {
                    proof {
                        assert(bucket@.take(i + 1) =~= bucket@.take(i as int).push(bucket@[i as int]));
                        lemma_sums_push(bucket@.take(i as int), bucket@[i as int]);
                        lemma_mass_sum_take_le(bucket@, i + 1);
                        lemma_moments_bounded(bucket@.take(i + 1));
                        lemma_moments_bounded(bucket@.take(i as int));
                        lemma_mass_sum_nonneg(bucket@.take(i as int));
                        assert(forall|j: int|
                            0 <= j < i + 1 ==> (#[trigger] bucket@.take(i + 1)[j]) == bucket@[j]);
                    }
                    let p = bucket[i];
                    wx = wx + (p.x as i128) * (p.mass as i128);
                    wy = wy + (p.y as i128) * (p.mass as i128);
                    total = total + p.mass;
                    i += 1;
                }
                proof {
                    assert(bucket@.take(bucket@.len() as int) =~= bucket@);
                }
                (wx, wy, total)
            },
            Node::Internal(nw, ne, sw, se) => {
                proof {
                    lemma_sums_concat(nw.points(), ne.points());
                    lemma_sums_concat(nw.points() + ne.points(), sw.points());
                    lemma_sums_concat(nw.points() + ne.points() + sw.points(), se.points());
                    lemma_mass_sum_nonneg(nw.points());
                    lemma_mass_sum_nonneg(ne.points());
                    lemma_mass_sum_nonneg(sw.points());
                    lemma_mass_sum_nonneg(se.points());
                    lemma_points_in_boundary(**nw);
                    lemma_points_in_boundary(**ne);
                    lemma_points_in_boundary(**sw);
                    lemma_points_in_boundary(**se);
                    lemma_moments_bounded(nw.points());
                    lemma_moments_bounded(ne.points());
                    lemma_moments_bounded(sw.points());
                    lemma_moments_bounded(se.points());
                }
                let c1 = nw.get_center_of_mass();
                let c2 = ne.get_center_of_mass();
                let c3 = sw.get_center_of_mass();
                let c4 = se.get_center_of_mass();
                (c1.0 + c2.0 + c3.0 + c4.0, c1.1 + c2.1 + c3.1 + c4.1, c1.2 + c2.2 + c3.2 + c4.2)
            },
        }
    }
}

/// The subsequence of `s` that a tree over `boundary` accepts:
/// positive mass and position inside the boundary.
pub open spec fn admitted(boundary: Rectangle, s: Seq<Particle>) -> Seq<Particle>
    decreases s.len(),
{
    if s.len() == 0 {
        Seq::empty()
    } else if boundary.spec_contains(s.last().x as int, s.last().y as int) && s.last().mass >= 1 {
        admitted(boundary, s.drop_last()).push(s.last())
    } else {
        admitted(boundary, s.drop_last())
    }
}

/// The complementary subsequence: the particles a tree over
/// `boundary` turns away, in input order.
pub open spec fn turned_away(boundary: Rectangle, s: Seq<Particle>) -> Seq<Particle>
    decreases s.len(),
{
    if s.len() == 0 {
        Seq::empty()
    } else if boundary.spec_contains(s.last().x as int, s.last().y as int) && s.last().mass >= 1 {
        turned_away(boundary, s.drop_last())
    } else {
        turned_away(boundary, s.drop_last()).push(s.last())
    }
}

proof fn lemma_admitted_push(boundary: Rectangle, s: Seq<Particle>, p: Particle)
    ensures
        admitted(boundary, s.push(p)) == (if boundary.spec_contains(p.x as int, p.y as int)
            && p.mass >= 1 {
            admitted(boundary, s).push(p)
        } else {
            admitted(boundary, s)
        }),
        turned_away(boundary, s.push(p)) == (if boundary.spec_contains(p.x as int, p.y as int)
            && p.mass >= 1 {
            turned_away(boundary, s)
        } else {
            turned_away(boundary, s).push(p)
        }),
{
    assert(s.push(p).drop_last() =~= s);
    assert(s.push(p).last() == p);
}

/// Builds a fresh tree over `boundary` from a particle set.  Every
/// particle with positive mass whose position lies in `boundary` is
/// indexed (no silent loss: the indexed multiset equals the admitted
/// subsequence exactly); the rest come back in the second component,
/// in input order, so the caller can see every drop.
pub fn build(boundary: Rectangle, particles: &Vec<Particle>) -> (r: (Quadtree, Vec<Particle>))
    requires
        boundary.wf(),
    ensures
        r.0.wf(),
        r.0.boundary == boundary,
        r.0.points().to_multiset() == admitted(boundary, particles@).to_multiset(),
        r.1@ == turned_away(boundary, particles@),
        mass_sum(r.0.points()) == mass_sum(admitted(boundary, particles@)),
        moment_x(r.0.points()) == moment_x(admitted(boundary, particles@)),
        moment_y(r.0.points()) == moment_y(admitted(boundary, particles@)),
{
    broadcast use vstd::seq_lib::group_to_multiset_ensures;

    let mut tree = Quadtree::new(boundary);
    let mut rejected: Vec<Particle> = Vec::new();
    let mut i: usize = 0;
    proof {
        assert(particles@.take(0int) =~= Seq::<Particle>::empty());
        assert(tree.points().to_multiset() =~= admitted(boundary, particles@.take(0int)).to_multiset());
    }
    while i < particles.len()
        invariant
            0 <= i <= particles@.len(),
            tree.wf(),
            tree.boundary == boundary,
            boundary.wf(),
            tree.points().to_multiset() == admitted(boundary, particles@.take(i as int)).to_multiset(),
            rejected@ == turned_away(boundary, particles@.take(i as int)),
            mass_sum(tree.points()) == mass_sum(admitted(boundary, particles@.take(i as int))),
            moment_x(tree.points()) == moment_x(admitted(boundary, particles@.take(i as int))),
            moment_y(tree.points()) == moment_y(admitted(boundary, particles@.take(i as int))),
        decreases particles@.len() - i,
    {
        let p = particles[i];
        proof {
            assert(particles@.take(i + 1) =~= particles@.take(i as int).push(p));
            lemma_admitted_push(boundary, particles@.take(i as int), p);
            if boundary.spec_contains(p.x as int, p.y as int) && p.mass >= 1 {
                lemma_sums_push(admitted(boundary, particles@.take(i as int)), p);
                vstd::seq_lib::to_multiset_build(admitted(boundary, particles@.take(i as int)), p);
            }
        }
        let outcome = tree.insert(p);
        if !matches!(outcome, InsertOutcome::Inserted) {
            rejected.push(p);
        }
        i += 1;
    }
    proof {
        assert(particles@.take(particles@.len() as int) =~= particles@);
    }
    (tree, rejected)
}

/// In a well-formed tree every indexed particle has positive mass and
/// lies in the boundary.
pub proof fn lemma_points_in_boundary(t: Quadtree)
    requires
        t.wf(),
    ensures
        forall|i: int|
            0 <= i < t.points().len() ==> {
                &&& t.boundary.spec_contains(
                    (#[trigger] t.points()[i]).x as int,
                    t.points()[i].y as int,
                )
                &&& t.points()[i].mass >= 1
            },
    decreases t,
{
    match t.node {
        Node::Empty => {},
        Node::Leaf(bucket) => {},
        Node::Internal(nw, ne, sw, se) => {
            lemma_points_in_boundary(*nw);
            lemma_points_in_boundary(*ne);
            lemma_points_in_boundary(*sw);
            lemma_points_in_boundary(*se);
            assert forall|i: int| 0 <= i < t.points().len() implies {
                &&& t.boundary.spec_contains(
                    (#[trigger] t.points()[i]).x as int,
                    t.points()[i].y as int,
                )
                &&& t.points()[i].mass >= 1
            } by {
                let p = t.points()[i];
                assert(nw.points().contains(p) || ne.points().contains(p)
                    || sw.points().contains(p) || se.points().contains(p));
                lemma_quadrant_in_parent(t.boundary, p.x as int, p.y as int);
            }
        },
    }
}

} // verus!
