use vstd::prelude::*;

verus! {

/// Largest magnitude a world coordinate may take.  Keeping every
/// coordinate of a well-formed boundary inside this bound lets the
/// force evaluator carry out its opening-angle arithmetic in `i128`
/// with no overflow.
pub const COORD_LIMIT: i64 = 0x100_0000;

/// An axis-aligned rectangle: the closed region
/// `[x, x + width] x [y, y + height]` in world coordinates.
#[derive(Clone, Copy, PartialEq, Eq, Structural, Debug)]
pub struct Rectangle {
    pub x: i64,
    pub y: i64,
    pub width: i64,
    pub height: i64,
}

impl Rectangle {
    /// Nonnegative extents, with the whole region inside the world bound.
    pub open spec fn wf(self) -> bool {
        &&& 0 <= self.width
        &&& 0 <= self.height
        &&& -(COORD_LIMIT as int) <= self.x
        &&& self.x + self.width <= COORD_LIMIT as int
        &&& -(COORD_LIMIT as int) <= self.y
        &&& self.y + self.height <= COORD_LIMIT as int
    }

    /// The point `(px, py)` lies in the closed region.  Both ends of
    /// both intervals count, so a point on a shared edge is contained
    /// in every adjoining rectangle.
    pub open spec fn spec_contains(self, px: int, py: int) -> bool {
        &&& self.x <= px <= self.x + self.width
        &&& self.y <= py <= self.y + self.height
    }

    /// The two closed regions overlap on both axes.
    pub open spec fn spec_intersects(self, other: Rectangle) -> bool {
        &&& self.x <= other.x + other.width
        &&& other.x <= self.x + self.width
        &&& self.y <= other.y + other.height
        &&& other.y <= self.y + self.height
    }

    pub fn new(x: i64, y: i64, width: i64, height: i64) -> (r: Rectangle)
        requires
            0 <= width,
            0 <= height,
            -COORD_LIMIT <= x,
            x + width <= COORD_LIMIT,
            -COORD_LIMIT <= y,
            y + height <= COORD_LIMIT,
        ensures
            r.wf(),
            r == (Rectangle { x, y, width, height }),
    {
        Rectangle { x, y, width, height }
    }

    pub fn contains(&self, px: i64, py: i64) -> (r: bool)
        requires
            self.wf(),
        ensures
            r == self.spec_contains(px as int, py as int),
    {
        px >= self.x && px <= self.x + self.width && py >= self.y && py <= self.y + self.height
    }

    pub fn intersects(&self, other: &Rectangle) -> (r: bool)
        requires
            self.wf(),
            other.wf(),
        ensures
            r == self.spec_intersects(*other),
    {
        self.x <= other.x + other.width && other.x <= self.x + self.width
            && self.y <= other.y + other.height && other.y <= self.y + self.height
    }
}

impl Rectangle {
    /// North-west quadrant: the left halves of both axes.  With an odd
    /// extent the left half is the shorter one, so the four quadrants
    /// tile the parent exactly.
    pub open spec fn spec_nw(self) -> Rectangle {
        Rectangle {
            x: self.x,
            y: self.y,
            width: (self.width / 2) as i64,
            height: (self.height / 2) as i64,
        }
    }

    pub open spec fn spec_ne(self) -> Rectangle {
        Rectangle {
            x: (self.x + self.width / 2) as i64,
            y: self.y,
            width: (self.width - self.width / 2) as i64,
            height: (self.height / 2) as i64,
        }
    }

    pub open spec fn spec_sw(self) -> Rectangle {
        Rectangle {
            x: self.x,
            y: (self.y + self.height / 2) as i64,
            width: (self.width / 2) as i64,
            height: (self.height - self.height / 2) as i64,
        }
    }

    pub open spec fn spec_se(self) -> Rectangle {
        Rectangle {
            x: (self.x + self.width / 2) as i64,
            y: (self.y + self.height / 2) as i64,
            width: (self.width - self.width / 2) as i64,
            height: (self.height - self.height / 2) as i64,
        }
    }

    pub fn nw_quadrant(&self) -> (r: Rectangle)
        requires
            self.wf(),
        ensures
            r == self.spec_nw(),
            r.wf(),
    {
        Rectangle { x: self.x, y: self.y, width: self.width / 2, height: self.height / 2 }
    }

    pub fn ne_quadrant(&self) -> (r: Rectangle)
        requires
            self.wf(),
        ensures
            r == self.spec_ne(),
            r.wf(),
    {
        Rectangle {
            x: self.x + self.width / 2,
            y: self.y,
            width: self.width - self.width / 2,
            height: self.height / 2,
        }
    }

    pub fn sw_quadrant(&self) -> (r: Rectangle)
        requires
            self.wf(),
        ensures
            r == self.spec_sw(),
            r.wf(),
    {
        Rectangle {
            x: self.x,
            y: self.y + self.height / 2,
            width: self.width / 2,
            height: self.height - self.height / 2,
        }
    }

    pub fn se_quadrant(&self) -> (r: Rectangle)
        requires
            self.wf(),
        ensures
            r == self.spec_se(),
            r.wf(),
    {
        Rectangle {
            x: self.x + self.width / 2,
            y: self.y + self.height / 2,
            width: self.width - self.width / 2,
            height: self.height - self.height / 2,
        }
    }
}

/// Every point of a rectangle lies in at least one of its quadrants.
/// (A point on an interior edge lies in more than one; the insertion
/// routine always picks the first containing quadrant in NW, NE, SW,
/// SE order, so each particle is stored exactly once.)
pub proof fn lemma_quadrants_cover(r: Rectangle, px: int, py: int)
    requires
        r.wf(),
        r.spec_contains(px, py),
    ensures
        r.spec_nw().spec_contains(px, py) || r.spec_ne().spec_contains(px, py)
            || r.spec_sw().spec_contains(px, py) || r.spec_se().spec_contains(px, py),
{
}

/// Each quadrant is a subregion of its parent.
pub proof fn lemma_quadrant_in_parent(r: Rectangle, px: int, py: int)
    requires
        r.wf(),
        r.spec_nw().spec_contains(px, py) || r.spec_ne().spec_contains(px, py)
            || r.spec_sw().spec_contains(px, py) || r.spec_se().spec_contains(px, py),
    ensures
        r.spec_contains(px, py),
{
}

/// Two rectangles that both contain a common point overlap.
pub proof fn lemma_common_point_intersects(a: Rectangle, b: Rectangle, px: int, py: int)
    requires
        a.spec_contains(px, py),
        b.spec_contains(px, py),
    ensures
        a.spec_intersects(b),
{
}

} // verus!
