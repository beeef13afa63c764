//! Points and axis-aligned bounding boxes on the integer grid.

use vstd::prelude::*;

verus! {

/// Grid units in one meter: coordinates and distances are whole multiples of
/// a tenth of a millimeter.
pub const UNITS_PER_METER: i64 = 10_000;

/// Largest magnitude of a coordinate of any shape: 2^40 units.
pub const MAX_COORD: i64 = 0x100_0000_0000;

/// Largest magnitude of a coordinate of the road network: 2^39 units.
pub const WORLD_LIMIT: i64 = 0x80_0000_0000;

/// Largest distance that placement works with: 2^30 units.
pub const MAX_DISTANCE: i64 = 0x4000_0000;

/// A point of the plane.
#[derive(Clone, Copy, Debug, PartialEq, Eq, Structural)]
pub struct Pt2D {
    pub x: i64,
    pub y: i64,
}

impl Pt2D {
    /// Both coordinates are at most `limit` in magnitude.
    pub open spec fn within(self, limit: int) -> bool {
        -limit <= self.x <= limit && -limit <= self.y <= limit
    }

    pub fn new(x: i64, y: i64) -> (pt: Pt2D)
        ensures
            pt.x == x,
            pt.y == y,
    {
        Pt2D { x, y }
    }

    /// Tests whether both coordinates are at most `limit` in magnitude.
    pub fn is_within(&self, limit: i64) -> (b: bool)
        requires
            0 <= limit,
        ensures
            b == self.within(limit as int),
    {
        -limit <= self.x && self.x <= limit && -limit <= self.y && self.y <= limit
    }
}

/// Every point of `pts` has coordinates at most `limit` in magnitude.
pub open spec fn all_within(pts: Seq<Pt2D>, limit: int) -> bool {
    forall|i: int| 0 <= i < pts.len() ==> (#[trigger] pts[i]).within(limit)
}

/// A closed axis-aligned box.
#[derive(Clone, Copy, Debug, PartialEq, Eq, Structural)]
pub struct Bounds {
    pub min_x: i64,
    pub min_y: i64,
    pub max_x: i64,
    pub max_y: i64,
}

impl Bounds {
    /// The box is not inverted.
    pub open spec fn wf(self) -> bool {
        self.min_x <= self.max_x && self.min_y <= self.max_y
    }

    /// All four sides are at most `limit` in magnitude.
    pub open spec fn within(self, limit: int) -> bool {
        &&& -limit <= self.min_x
        &&& -limit <= self.min_y
        &&& self.max_x <= limit
        &&& self.max_y <= limit
    }

    /// The two closed boxes share at least one point.
    pub open spec fn spec_intersects(self, other: Bounds) -> bool {
        &&& self.min_x <= other.max_x
        &&& other.min_x <= self.max_x
        &&& self.min_y <= other.max_y
        &&& other.min_y <= self.max_y
    }

    /// The closed box holds `pt`.
    pub open spec fn spec_contains(self, pt: Pt2D) -> bool {
        self.min_x <= pt.x <= self.max_x && self.min_y <= pt.y <= self.max_y
    }

    /// The box grown by `d` on every side.
    pub open spec fn spec_buffered(self, d: int) -> Bounds
        recommends
            i64::MIN <= self.min_x - d,
            i64::MIN <= self.min_y - d,
            self.max_x + d <= i64::MAX,
            self.max_y + d <= i64::MAX,
    {
        Bounds {
            min_x: (self.min_x - d) as i64,
            min_y: (self.min_y - d) as i64,
            max_x: (self.max_x + d) as i64,
            max_y: (self.max_y + d) as i64,
        }
    }

    /// The box that holds exactly `pt`.
    pub open spec fn spec_at(pt: Pt2D) -> Bounds {
        Bounds { min_x: pt.x, min_y: pt.y, max_x: pt.x, max_y: pt.y }
    }

    /// The smallest box that holds this box and `pt`.
    pub open spec fn spec_extended(self, pt: Pt2D) -> Bounds {
        Bounds {
            min_x: if pt.x < self.min_x { pt.x } else { self.min_x },
            min_y: if pt.y < self.min_y { pt.y } else { self.min_y },
            max_x: if pt.x > self.max_x { pt.x } else { self.max_x },
            max_y: if pt.y > self.max_y { pt.y } else { self.max_y },
        }
    }

    /// The smallest box that holds every point of a non-empty sequence.
    pub open spec fn spec_of(pts: Seq<Pt2D>) -> Bounds
        recommends
            pts.len() > 0,
        decreases pts.len(),
    {
        if pts.len() <= 1 {
            Bounds::spec_at(pts[0])
        } else {
            Bounds::spec_of(pts.drop_last()).spec_extended(pts.last())
        }
    }

    /// The box around a non-empty set of points is not inverted, holds each of
    /// them, and stays within any limit that the points keep.
    pub proof fn lemma_spec_of(pts: Seq<Pt2D>, limit: int)
        requires
            pts.len() > 0,
        ensures
            Bounds::spec_of(pts).wf(),
            forall|i: int| 0 <= i < pts.len() ==> Bounds::spec_of(pts).spec_contains(#[trigger] pts[i]),
            all_within(pts, limit) ==> Bounds::spec_of(pts).within(limit),
        decreases pts.len(),
    {
        if pts.len() > 1 {
            let front = pts.drop_last();
            Bounds::lemma_spec_of(front, limit);
            assert forall|i: int| 0 <= i < pts.len() implies Bounds::spec_of(pts).spec_contains(
                #[trigger] pts[i],
            ) by {
                if i < pts.len() - 1 {
                    assert(front[i] == pts[i]);
                    assert(Bounds::spec_of(front).spec_contains(front[i]));
                }
            }
            if all_within(pts, limit) {
                assert forall|i: int| 0 <= i < front.len() implies (#[trigger] front[i]).within(
                    limit,
                ) by {
                    assert(front[i] == pts[i]);
                }
                assert(pts[pts.len() - 1].within(limit));
            }
        } else {
            if all_within(pts, limit) {
                assert(pts[0].within(limit));
            }
        }
    }

    /// The box that holds exactly `pt`.
    pub fn at(pt: Pt2D) -> (b: Bounds)
        ensures
            b == Bounds::spec_at(pt),
    {
        Bounds { min_x: pt.x, min_y: pt.y, max_x: pt.x, max_y: pt.y }
    }

    /// Grows the box, if needed, to hold `pt`.
    pub fn update(&mut self, pt: Pt2D)
        ensures
            *final(self) == old(self).spec_extended(pt),
    {
        if pt.x < self.min_x {
            self.min_x = pt.x;
        }
        if pt.y < self.min_y {
            self.min_y = pt.y;
        }
        if pt.x > self.max_x {
            self.max_x = pt.x;
        }
        if pt.y > self.max_y {
            self.max_y = pt.y;
        }
    }

    /// Grows the box by `d` on every side.
    pub fn add_buffer(&mut self, d: i64)
        requires
            old(self).within(MAX_COORD as int),
            0 <= d <= MAX_DISTANCE,
        ensures
            *final(self) == old(self).spec_buffered(d as int),
            old(self).wf() ==> final(self).wf(),
    {
        self.min_x = self.min_x - d;
        self.min_y = self.min_y - d;
        self.max_x = self.max_x + d;
        self.max_y = self.max_y + d;
    }

    /// Tests whether the two closed boxes share a point.
    pub fn intersects(&self, other: &Bounds) -> (b: bool)
        ensures
            b == self.spec_intersects(*other),
    {
        self.min_x <= other.max_x && other.min_x <= self.max_x && self.min_y <= other.max_y
            && other.min_y <= self.max_y
    }
}

} // verus!
