//! What already lies on the map and must stay clear of new buildings: areas
//! such as parks and water, and the outlines of roads.

use vstd::prelude::*;
use crate::geometry::{Bounds, Pt2D, MAX_COORD};
use crate::polygon::{spec_contains_pt, Polygon};
use crate::spatial_index::{positions_meeting, SpatialIndex, BOX_LIMIT, INDEX_CAPACITY};

verus! {

/// Something on the map that a building must not touch.
pub enum Obstacle {
    /// A filled region.
    Area(Polygon),
    /// A band: what lies inside `outer` and outside `inner`. The middle of
    /// the band's hole is no part of the obstacle.
    Outline { outer: Polygon, inner: Polygon },
}

impl Obstacle {
    /// The points of the ring that bounds the obstacle on the outside.
    pub open spec fn spec_hull(&self) -> Seq<Pt2D> {
        match self {
            Obstacle::Area(region) => region@,
            Obstacle::Outline { outer, inner } => outer@,
        }
    }

    /// The smallest box that holds the obstacle.
    pub open spec fn spec_bounds(&self) -> Bounds {
        Bounds::spec_of(self.spec_hull())
    }

    /// The obstacle holds `pt`.
    pub open spec fn spec_contains_pt(&self, pt: Pt2D) -> bool {
        match self {
            Obstacle::Area(region) => spec_contains_pt(region@, pt),
            Obstacle::Outline { outer, inner } => spec_contains_pt(outer@, pt) && !spec_contains_pt(
                inner@,
                pt,
            ),
        }
    }

    /// The smallest box that holds the obstacle.
    pub fn get_bounds(&self) -> (b: Bounds)
        ensures
            b == self.spec_bounds(),
            b.wf(),
            b.within(MAX_COORD as int),
    {
        match self {
            Obstacle::Area(region) => region.get_bounds(),
            Obstacle::Outline { outer, inner } => outer.get_bounds(),
        }
    }

    /// Tests whether the obstacle holds `pt`.
    pub fn contains_pt(&self, pt: Pt2D) -> (b: bool)
        requires
            pt.within(MAX_COORD as int),
        ensures
            b == self.spec_contains_pt(pt),
    {
        match self {
            Obstacle::Area(region) => region.contains_pt(pt),
            Obstacle::Outline { outer, inner } => outer.contains_pt(pt) && !inner.contains_pt(pt),
        }
    }
}

/// The boxes of the first `k` obstacles.
pub open spec fn obstacle_bounds(obstacles: Seq<Obstacle>, k: int) -> Seq<Bounds> {
    Seq::new(k as nat, |i: int| obstacles[i].spec_bounds())
}

/// The smallest box that holds the origin and the first `k` obstacles.
pub open spec fn frame_upto(obstacles: Seq<Obstacle>, k: int) -> Bounds
    decreases k,
{
    if k <= 0 {
        Bounds::spec_at(Pt2D { x: 0, y: 0 })
    } else {
        let b = obstacles[k - 1].spec_bounds();
        frame_upto(obstacles, k - 1).spec_extended(Pt2D { x: b.min_x, y: b.min_y }).spec_extended(
            Pt2D { x: b.max_x, y: b.max_y },
        )
    }
}

/// The obstacles of a map, with an index over their boxes.
pub struct Basemap {
    obstacles: Vec<Obstacle>,
    index: SpatialIndex,
}

impl View for Basemap {
    type V = Seq<Obstacle>;

    /// The obstacles, in the order in which they were given.
    closed spec fn view(&self) -> Seq<Obstacle> {
        self.obstacles@
    }
}

impl Basemap {
    /// The index holds the boxes of the obstacles, as many as it has room
    /// for.
    #[verifier::type_invariant]
    spec fn inv(self) -> bool {
        &&& self.index.wf()
        &&& self.index@.len() <= self.obstacles@.len()
        &&& self.index@.len() == self.obstacles@.len() || self.index@.len() == INDEX_CAPACITY
        &&& self.index@ == obstacle_bounds(self.obstacles@, self.index@.len() as int)
    }

    /// The basemap of the given obstacles.
    pub fn new(obstacles: Vec<Obstacle>) -> (basemap: Basemap)
        ensures
            basemap@ == obstacles@,
    {
        let mut frame: Bounds = Bounds::at(Pt2D { x: 0, y: 0 });
        let mut k: usize = 0;
        while k < obstacles.len()
            invariant
                0 <= k <= obstacles.len(),
                frame == frame_upto(obstacles@, k as int),
                frame.wf(),
                frame.within(MAX_COORD as int),
            decreases obstacles.len() - k,
        {
            let b: Bounds = obstacles[k].get_bounds();
            frame.update(Pt2D { x: b.min_x, y: b.min_y });
            frame.update(Pt2D { x: b.max_x, y: b.max_y });
            k += 1;
        }
        let mut index: SpatialIndex = SpatialIndex::new(&frame);
        let mut i: usize = 0;
        while i < obstacles.len() && i < INDEX_CAPACITY
            invariant
                0 <= i <= obstacles.len(),
                i <= INDEX_CAPACITY,
                index.wf(),
                index@ == obstacle_bounds(obstacles@, i as int),
            decreases obstacles.len() - i,
        {
            let b: Bounds = obstacles[i].get_bounds();
            index.insert(b);
            proof {
                assert(index@ =~= obstacle_bounds(obstacles@, i + 1));
            }
            i += 1;
        }
        Basemap { obstacles, index }
    }

    /// The number of obstacles.
    pub fn len(&self) -> (n: usize)
        ensures
            n == self@.len(),
    {
        self.obstacles.len()
    }

    /// The obstacle at position `i`.
    pub fn get(&self, i: usize) -> (obstacle: &Obstacle)
        requires
            i < self@.len(),
        ensures
            *obstacle == self@[i as int],
    {
        &self.obstacles[i]
    }

    /// The positions, in ascending order, of the obstacles whose box meets
    /// `b`: all that a shape within `b` could touch.
    pub fn get_renderables_back_to_front(&self, b: &Bounds) -> (hits: Vec<usize>)
        requires
            b.wf(),
            b.within(BOX_LIMIT as int),
        ensures
            hits@ == positions_meeting(obstacle_bounds(self@, self@.len() as int), *b),
    {
        proof {
            use_type_invariant(self);
        }
        let mut hits: Vec<usize> = self.index.query(b);
        let mut i: usize = self.index.len();
        while i < self.obstacles.len()
            invariant
                0 <= i <= self.obstacles.len(),
                hits@ == positions_meeting(obstacle_bounds(self.obstacles@, i as int), *b),
            decreases self.obstacles.len() - i,
        {
            proof {
                let now = obstacle_bounds(self.obstacles@, i + 1);
                assert(now.drop_last() =~= obstacle_bounds(self.obstacles@, i as int));
                assert(now.last() == self.obstacles@[i as int].spec_bounds());
            }
            if self.obstacles[i].get_bounds().intersects(b) {
                hits.push(i);
            }
            i += 1;
        }
        hits
    }
}

} // verus!
