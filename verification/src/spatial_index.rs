//! A spatial index over bounding boxes: an append-only sequence of boxes that
//! answers which of them meet a given box. It owns no geometry; a box is
//! known by its position in the sequence.
//!
//! The quadtree underneath works on a coarse grid. Mapping a box to the grid
//! never separates two boxes that meet, so the tree's answer holds every
//! position that is wanted, and an exact test on each drops the rest.

use vstd::prelude::*;
use vstd::arithmetic::div_mod::lemma_div_is_ordered;
use aabb_quadtree::QuadTree;
use crate::geometry::{Bounds, MAX_COORD};
use crate::quadtree::{
    touching_values, tree_entries, tree_insert, tree_new, tree_query, tree_side, GridBox,
};

verus! {

/// The side of the grid that the quadtree covers.
pub const GRID_SIDE: u16 = 65535;

/// The index holds fewer boxes than this.
pub const INDEX_CAPACITY: usize = 0xFFFF_FFFE;

/// Largest magnitude of a side of a box that is inserted or asked for: 2^41.
pub const BOX_LIMIT: i64 = 0x200_0000_0000;

/// The grid coordinate of `v`: the number of whole cells between `origin` and
/// `v`, kept within the grid.
pub open spec fn spec_grid_coord(v: int, origin: int, cell: int) -> int {
    if v <= origin {
        0
    } else if (v - origin) / cell >= GRID_SIDE {
        GRID_SIDE as int
    } else {
        (v - origin) / cell
    }
}

/// The box on the grid that covers `b`.
pub open spec fn spec_grid_box(b: Bounds, origin_x: int, origin_y: int, cell: int) -> GridBox {
    GridBox {
        x0: spec_grid_coord(b.min_x as int, origin_x, cell) as u16,
        y0: spec_grid_coord(b.min_y as int, origin_y, cell) as u16,
        x1: spec_grid_coord(b.max_x as int, origin_x, cell) as u16,
        y1: spec_grid_coord(b.max_y as int, origin_y, cell) as u16,
    }
}

/// What the quadtree holds for the boxes `boxes`: each position with the
/// grid box of its box.
pub open spec fn grid_entries(boxes: Seq<Bounds>, origin_x: int, origin_y: int, cell: int) -> Seq<
    (usize, GridBox),
> {
    Seq::new(boxes.len(), |i: int| (i as usize, spec_grid_box(boxes[i], origin_x, origin_y, cell)))
}

/// The positions of the boxes of `boxes` that meet `b`, in ascending order.
pub open spec fn positions_meeting(boxes: Seq<Bounds>, b: Bounds) -> Seq<usize>
    decreases boxes.len(),
{
    if boxes.len() == 0 {
        Seq::empty()
    } else {
        let earlier = positions_meeting(boxes.drop_last(), b);
        if boxes.last().spec_intersects(b) {
            earlier.push((boxes.len() - 1) as usize)
        } else {
            earlier
        }
    }
}

/// Those positions of `candidates` whose box meets `b`, in the same order.
pub open spec fn meeting_among(candidates: Seq<usize>, boxes: Seq<Bounds>, b: Bounds) -> Seq<usize>
    decreases candidates.len(),
{
    if candidates.len() == 0 {
        Seq::empty()
    } else {
        let earlier = meeting_among(candidates.drop_last(), boxes, b);
        if boxes[candidates.last() as int].spec_intersects(b) {
            earlier.push(candidates.last())
        } else {
            earlier
        }
    }
}

/// The positions that meet `b` are exactly those of the boxes that meet it.
pub proof fn lemma_positions_meeting(boxes: Seq<Bounds>, b: Bounds)
    requires
        boxes.len() <= usize::MAX,
    ensures
        forall|k: int|
            0 <= k < positions_meeting(boxes, b).len() ==> {
                let pos = #[trigger] positions_meeting(boxes, b)[k];
                0 <= pos < boxes.len() && boxes[pos as int].spec_intersects(b)
            },
        forall|i: int|
            0 <= i < boxes.len() && (#[trigger] boxes[i]).spec_intersects(b) ==> positions_meeting(
                boxes,
                b,
            ).contains(i as usize),
    decreases boxes.len(),
{
    if boxes.len() > 0 {
        let front = boxes.drop_last();
        lemma_positions_meeting(front, b);
        let earlier = positions_meeting(front, b);
        let all = positions_meeting(boxes, b);
        let last = (boxes.len() - 1) as usize;
        assert forall|k: int| 0 <= k < all.len() implies {
            let pos = #[trigger] all[k];
            0 <= pos < boxes.len() && boxes[pos as int].spec_intersects(b)
        } by {
            if k < earlier.len() {
                assert(all[k] == earlier[k]);
                assert(front[earlier[k] as int] == boxes[earlier[k] as int]);
            }
        }
        assert forall|i: int| 0 <= i < boxes.len() && (#[trigger] boxes[i]).spec_intersects(
            b,
        ) implies all.contains(i as usize) by {
            if i < boxes.len() - 1 {
                assert(front[i] == boxes[i]);
                let k = choose|k: int| 0 <= k < earlier.len() && earlier[k] == i as usize;
                assert(all[k] == i as usize);
            } else {
                assert(all[all.len() - 1] == last);
            }
        }
    }
}

/// The grid coordinate lies on the grid and does not decrease as `v` grows.
pub proof fn lemma_grid_coord(v1: int, v2: int, origin: int, cell: int)
    requires
        cell >= 1,
        v1 <= v2,
    ensures
        0 <= spec_grid_coord(v1, origin, cell) <= spec_grid_coord(v2, origin, cell) <= GRID_SIDE,
{
    if v1 > origin {
        lemma_div_is_ordered(v1 - origin, v2 - origin, cell);
        lemma_div_is_ordered(0, v1 - origin, cell);
    }
    if v2 > origin {
        lemma_div_is_ordered(0, v2 - origin, cell);
    }
}

/// Two boxes that meet have grid boxes that touch.
pub proof fn lemma_grid_keeps_meeting(a: Bounds, b: Bounds, origin_x: int, origin_y: int, cell: int)
    requires
        cell >= 1,
        a.wf(),
        b.wf(),
        a.spec_intersects(b),
    ensures
        spec_grid_box(a, origin_x, origin_y, cell).wf(),
        spec_grid_box(a, origin_x, origin_y, cell).touches(
            spec_grid_box(b, origin_x, origin_y, cell),
        ),
{
    lemma_grid_coord(a.min_x as int, a.max_x as int, origin_x, cell);
    lemma_grid_coord(a.min_y as int, a.max_y as int, origin_y, cell);
    lemma_grid_coord(b.min_x as int, b.max_x as int, origin_x, cell);
    lemma_grid_coord(b.min_y as int, b.max_y as int, origin_y, cell);
    lemma_grid_coord(a.min_x as int, b.max_x as int, origin_x, cell);
    lemma_grid_coord(b.min_x as int, a.max_x as int, origin_x, cell);
    lemma_grid_coord(a.min_y as int, b.max_y as int, origin_y, cell);
    lemma_grid_coord(b.min_y as int, a.max_y as int, origin_y, cell);
}

/// The exact test, run on what the grid lets through, leaves the positions
/// of exactly the boxes that meet `b`.
proof fn lemma_grid_then_exact(
    boxes: Seq<Bounds>,
    b: Bounds,
    origin_x: int,
    origin_y: int,
    cell: int,
    n: int,
)
    requires
        cell >= 1,
        b.wf(),
        forall|i: int| 0 <= i < boxes.len() ==> (#[trigger] boxes[i]).wf(),
        0 <= n <= boxes.len() <= usize::MAX,
    ensures
        ({
            let coarse = touching_values(
                grid_entries(boxes, origin_x, origin_y, cell).take(n),
                spec_grid_box(b, origin_x, origin_y, cell),
            );
            &&& forall|k: int| 0 <= k < coarse.len() ==> 0 <= #[trigger] coarse[k] < n
            &&& meeting_among(coarse, boxes, b) == positions_meeting(boxes.take(n), b)
        }),
    decreases n,
{
    let entries = grid_entries(boxes, origin_x, origin_y, cell);
    let query = spec_grid_box(b, origin_x, origin_y, cell);
    if n > 0 {
        lemma_grid_then_exact(boxes, b, origin_x, origin_y, cell, n - 1);
        assert(entries.take(n).drop_last() =~= entries.take(n - 1));
        assert(boxes.take(n).drop_last() =~= boxes.take(n - 1));
        assert(entries.take(n).last() == entries[n - 1]);
        assert(boxes.take(n).last() == boxes[n - 1]);
        let before = touching_values(entries.take(n - 1), query);
        let now = touching_values(entries.take(n), query);
        let last = (n - 1) as usize;
        assert(entries[n - 1] == (last, spec_grid_box(boxes[n - 1], origin_x, origin_y, cell)));
        assert(boxes[n - 1].wf());
        if boxes[n - 1].spec_intersects(b) {
            lemma_grid_keeps_meeting(boxes[n - 1], b, origin_x, origin_y, cell);
        }
        if entries[n - 1].1.touches(query) {
            assert(now == before.push(last));
            assert(now.drop_last() =~= before);
            assert(now.last() == last);
        } else {
            assert(now == before);
        }
    }
}

/// The index.
pub struct SpatialIndex {
    tree: QuadTree<usize>,
    boxes: Vec<Bounds>,
    origin_x: i64,
    origin_y: i64,
    cell: i64,
}

impl View for SpatialIndex {
    type V = Seq<Bounds>;

    /// The boxes that were inserted, by position.
    closed spec fn view(&self) -> Seq<Bounds> {
        self.boxes@
    }
}

impl SpatialIndex {
    /// The quadtree holds each position under the grid box of its box.
    pub closed spec fn wf(&self) -> bool {
        &&& self.cell >= 1
        &&& -MAX_COORD <= self.origin_x <= MAX_COORD
        &&& -MAX_COORD <= self.origin_y <= MAX_COORD
        &&& tree_side(self.tree) == GRID_SIDE
        &&& self.boxes@.len() <= INDEX_CAPACITY
        &&& tree_entries(self.tree) == grid_entries(
            self.boxes@,
            self.origin_x as int,
            self.origin_y as int,
            self.cell as int,
        )
        &&& forall|i: int|
            0 <= i < self.boxes@.len() ==> (#[trigger] self.boxes@[i]).wf()
                && self.boxes@[i].within(BOX_LIMIT as int)
    }

    /// An empty index laid out for boxes in and around `frame`.
    pub fn new(frame: &Bounds) -> (index: SpatialIndex)
        requires
            frame.wf(),
            frame.within(MAX_COORD as int),
        ensures
            index.wf(),
            index@ == Seq::<Bounds>::empty(),
    {
        let width: i64 = frame.max_x - frame.min_x;
        let height: i64 = frame.max_y - frame.min_y;
        let extent: i64 = if width > height { width } else { height };
        let cell: i64 = extent / 65535 + 1;
        let index = SpatialIndex {
            tree: tree_new(GRID_SIDE),
            boxes: Vec::new(),
            origin_x: frame.min_x,
            origin_y: frame.min_y,
            cell,
        };
        assert(tree_entries(index.tree) =~= grid_entries(
            index.boxes@,
            index.origin_x as int,
            index.origin_y as int,
            index.cell as int,
        ));
        index
    }

    /// The number of boxes in the index.
    pub fn len(&self) -> (n: usize)
        ensures
            n == self@.len(),
    {
        self.boxes.len()
    }

    /// The grid coordinate of `v`.
    fn grid_coord(v: i64, origin: i64, cell: i64) -> (g: u16)
        requires
            cell >= 1,
            -BOX_LIMIT <= v <= BOX_LIMIT,
            -MAX_COORD <= origin <= MAX_COORD,
        ensures
            g as int == spec_grid_coord(v as int, origin as int, cell as int),
    {
        if v <= origin {
            0
        } else {
            let q: i64 = (v - origin) / cell;
            if q >= 65535 {
                GRID_SIDE
            } else {
                proof {
                    lemma_div_is_ordered(0, v - origin, cell as int);
                }
                q as u16
            }
        }
    }

    /// The box on the grid that covers `b`.
    fn grid_box(&self, b: &Bounds) -> (g: GridBox)
        requires
            self.wf(),
            b.wf(),
            b.within(BOX_LIMIT as int),
        ensures
            g == spec_grid_box(*b, self.origin_x as int, self.origin_y as int, self.cell as int),
            g.wf(),
            g.x1 <= GRID_SIDE,
            g.y1 <= GRID_SIDE,
    {
        proof {
            lemma_grid_keeps_meeting(
                *b,
                *b,
                self.origin_x as int,
                self.origin_y as int,
                self.cell as int,
            );
        }
        GridBox {
            x0: Self::grid_coord(b.min_x, self.origin_x, self.cell),
            y0: Self::grid_coord(b.min_y, self.origin_y, self.cell),
            x1: Self::grid_coord(b.max_x, self.origin_x, self.cell),
            y1: Self::grid_coord(b.max_y, self.origin_y, self.cell),
        }
    }

    /// Appends `b` and returns its position.
    pub fn insert(&mut self, b: Bounds) -> (pos: usize)
        requires
            old(self).wf(),
            b.wf(),
            b.within(BOX_LIMIT as int),
            old(self)@.len() < INDEX_CAPACITY,
        ensures
            final(self).wf(),
            final(self)@ == old(self)@.push(b),
            pos == old(self)@.len(),
    {
        let pos: usize = self.boxes.len();
        let at: GridBox = self.grid_box(&b);
        tree_insert(&mut self.tree, pos, at);
        self.boxes.push(b);
        proof {
            assert(tree_entries(self.tree) =~= grid_entries(
                self.boxes@,
                self.origin_x as int,
                self.origin_y as int,
                self.cell as int,
            ));
        }
        pos
    }

    /// The positions, in ascending order, of the boxes that meet `b`.
    pub fn query(&self, b: &Bounds) -> (hits: Vec<usize>)
        requires
            self.wf(),
            b.wf(),
            b.within(BOX_LIMIT as int),
        ensures
            hits@ == positions_meeting(self@, *b),
    {
        let around: GridBox = self.grid_box(b);
        let coarse: Vec<usize> = tree_query(&self.tree, around);
        proof {
            lemma_grid_then_exact(
                self.boxes@,
                *b,
                self.origin_x as int,
                self.origin_y as int,
                self.cell as int,
                self.boxes@.len() as int,
            );
            assert(tree_entries(self.tree).take(self.boxes@.len() as int) =~= tree_entries(
                self.tree,
            ));
            assert(self.boxes@.take(self.boxes@.len() as int) =~= self.boxes@);
        }
        let mut hits: Vec<usize> = Vec::new();
        let mut k: usize = 0;
        while k < coarse.len()
            invariant
                0 <= k <= coarse.len(),
                forall|j: int| 0 <= j < coarse.len() ==> 0 <= #[trigger] coarse[j] < self.boxes@.len(),
                hits@ == meeting_among(coarse@.take(k as int), self.boxes@, *b),
            decreases coarse.len() - k,
        {
            let pos: usize = coarse[k];
            proof {
                assert(coarse@.take(k + 1).drop_last() =~= coarse@.take(k as int));
                assert(coarse@.take(k + 1).last() == pos);
            }
            if self.boxes[pos].intersects(b) {
                hits.push(pos);
            }
            k += 1;
        }
        proof {
            assert(coarse@.take(coarse.len() as int) =~= coarse@);
        }
        hits
    }
}

} // verus!
