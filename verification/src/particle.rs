use vstd::prelude::*;

verus! {

/// One point mass.  Positions are fixed-point world coordinates and the
/// mass is a positive fixed-point quantity; a mass of zero is invalid
/// and rejected at insertion.  Velocity and acceleration belong to the
/// excluded integrator and are not part of the indexed state.
#[derive(Clone, Copy, PartialEq, Eq, Structural, Debug)]
pub struct Particle {
    pub x: i64,
    pub y: i64,
    pub mass: u64,
}

/// Default mass of a particle, in fixed-point mass units.
pub const DEFAULT_MASS: u64 = 1;

impl Particle {
    pub fn new(x: i64, y: i64) -> (r: Particle)
        ensures
            r == (Particle { x, y, mass: DEFAULT_MASS }),
    {
        Particle { x, y, mass: DEFAULT_MASS }
    }

    pub fn with_mass(x: i64, y: i64, mass: u64) -> (r: Particle)
        ensures
            r == (Particle { x, y, mass }),
    {
        Particle { x, y, mass }
    }
}

/// Sum of the masses of a sequence of particles.
pub open spec fn mass_sum(s: Seq<Particle>) -> int
    decreases s.len(),
{
    if s.len() == 0 {
        0
    } else {
        mass_sum(s.drop_last()) + s.last().mass
    }
}

/// Mass-weighted sum of the x coordinates: the numerator of the x
/// component of the center of mass.
pub open spec fn moment_x(s: Seq<Particle>) -> int
    decreases s.len(),
{
    if s.len() == 0 {
        0
    } else {
        moment_x(s.drop_last()) + s.last().x * s.last().mass
    }
}

/// Mass-weighted sum of the y coordinates: the numerator of the y
/// component of the center of mass.
pub open spec fn moment_y(s: Seq<Particle>) -> int
    decreases s.len(),
{
    if s.len() == 0 {
        0
    } else {
        moment_y(s.drop_last()) + s.last().y * s.last().mass
    }
}

pub proof fn lemma_mass_sum_nonneg(s: Seq<Particle>)
    ensures
        0 <= mass_sum(s),
    decreases s.len(),
{
    if s.len() != 0 {
        lemma_mass_sum_nonneg(s.drop_last());
    }
}

/// All three sums distribute over concatenation.
pub proof fn lemma_sums_concat(a: Seq<Particle>, b: Seq<Particle>)
    ensures
        mass_sum(a + b) == mass_sum(a) + mass_sum(b),
        moment_x(a + b) == moment_x(a) + moment_x(b),
        moment_y(a + b) == moment_y(a) + moment_y(b),
    decreases b.len(),
{
    if b.len() == 0 {
        assert(a + b =~= a);
    } else {
        lemma_sums_concat(a, b.drop_last());
        assert((a + b).drop_last() =~= a + b.drop_last());
        assert((a + b).last() == b.last());
    }
}

/// Appending one element adds exactly its contribution to each sum.
pub proof fn lemma_sums_push(s: Seq<Particle>, p: Particle)
    ensures
        mass_sum(s.push(p)) == mass_sum(s) + p.mass,
        moment_x(s.push(p)) == moment_x(s) + p.x * p.mass,
        moment_y(s.push(p)) == moment_y(s) + p.y * p.mass,
{
    assert(s.push(p).drop_last() =~= s);
    assert(s.push(p).last() == p);
}

/// Removing one element takes exactly its contribution out of each sum.
pub proof fn lemma_sums_remove(s: Seq<Particle>, i: int)
    requires
        0 <= i < s.len(),
    ensures
        mass_sum(s.remove(i)) == mass_sum(s) - s[i].mass,
        moment_x(s.remove(i)) == moment_x(s) - s[i].x * s[i].mass,
        moment_y(s.remove(i)) == moment_y(s) - s[i].y * s[i].mass,
    decreases s.len(),
{
    if i == s.len() - 1 {
        assert(s.remove(i) =~= s.drop_last());
    } else {
        lemma_sums_remove(s.drop_last(), i);
        assert(s.remove(i).drop_last() =~= s.drop_last().remove(i));
        assert(s.remove(i).last() == s.last());
        assert(s.drop_last()[i] == s[i]);
    }
}

/// A prefix never weighs more than the whole sequence.
pub proof fn lemma_mass_sum_take_le(s: Seq<Particle>, i: int)
    requires
        0 <= i <= s.len(),
    ensures
        mass_sum(s.take(i)) <= mass_sum(s),
{
    assert(s =~= s.take(i) + s.skip(i));
    lemma_sums_concat(s.take(i), s.skip(i));
    lemma_mass_sum_nonneg(s.skip(i));
}

/// When every position is bounded by `COORD_LIMIT`, each moment is
/// bounded by `COORD_LIMIT` times the total mass.
pub proof fn lemma_moments_bounded(s: Seq<Particle>)
    requires
        forall|i: int|
            0 <= i < s.len() ==> {
                &&& -(crate::geom::COORD_LIMIT as int) <= (#[trigger] s[i]).x
                    <= crate::geom::COORD_LIMIT as int
                &&& -(crate::geom::COORD_LIMIT as int) <= s[i].y <= crate::geom::COORD_LIMIT as int
            },
    ensures
        -(crate::geom::COORD_LIMIT as int) * mass_sum(s) <= moment_x(s) <= (
        crate::geom::COORD_LIMIT as int) * mass_sum(s),
        -(crate::geom::COORD_LIMIT as int) * mass_sum(s) <= moment_y(s) <= (
        crate::geom::COORD_LIMIT as int) * mass_sum(s),
    decreases s.len(),
{
    let limit = crate::geom::COORD_LIMIT as int;
    if s.len() == 0 {
    } else {
        let p = s.last();
        assert(p == s[s.len() - 1]);
        lemma_moments_bounded(s.drop_last());
        lemma_mass_sum_nonneg(s.drop_last());
        assert(-limit * (p.mass as int) <= p.x * p.mass <= limit * (p.mass as int))
            by (nonlinear_arith)
            requires
                -limit <= p.x <= limit,
                0 <= p.mass as int,
        ;
        assert(-limit * (p.mass as int) <= p.y * p.mass <= limit * (p.mass as int))
            by (nonlinear_arith)
            requires
                -limit <= p.y <= limit,
                0 <= p.mass as int,
        ;
    }
}

/// The three sums are invariant under reordering: sequences with equal
/// multisets of particles have equal total mass and equal moments.
pub proof fn lemma_sums_permutation(a: Seq<Particle>, b: Seq<Particle>)
    requires
        a.to_multiset() == b.to_multiset(),
    ensures
        mass_sum(a) == mass_sum(b),
        moment_x(a) == moment_x(b),
        moment_y(a) == moment_y(b),
    decreases a.len(),
{
    broadcast use vstd::seq_lib::group_to_multiset_ensures;

    if a.len() == 0 {
        assert(b.to_multiset().len() == 0);
        assert(b.len() == 0);
    } else {
        let x = a.last();
        assert(a.to_multiset().contains(x)) by {
            assert(a.contains(x));
        }
        assert(b.to_multiset().contains(x));
        assert(b.contains(x));
        let j = choose|j: int| 0 <= j < b.len() && b[j] == x;
        assert(a.drop_last().to_multiset() =~= b.remove(j).to_multiset()) by {
            assert(a =~= a.drop_last().push(x));
            assert(a.drop_last().push(x).to_multiset() == a.drop_last().to_multiset().insert(x));
            assert(b.remove(j).to_multiset() == b.to_multiset().remove(x));
        }
        lemma_sums_permutation(a.drop_last(), b.remove(j));
        lemma_sums_remove(b, j);
    }
}

} // verus!
