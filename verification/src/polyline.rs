//! The center line of a lane: a chain of straight segments, measured by
//! distance along it.
//!
//! The length of a segment is the floor of its Euclidean length, and the
//! length of the line is the sum over its segments.

use vstd::prelude::*;
use crate::direction::{lemma_component_within, Direction, NORM_SCALE};
use crate::error::ProcgenError;
use crate::geometry::{all_within, Pt2D, WORLD_LIMIT};

verus! {

/// Largest length of a line: 2^50 units.
pub const MAX_LINE_LENGTH: i64 = 0x4_0000_0000_0000;

/// The direction of the segment that starts at point `i`.
pub open spec fn seg_dir(pts: Seq<Pt2D>, i: int) -> Direction {
    Direction::spec_between(pts[i], pts[i + 1])
}

/// The length of the segment that starts at point `i`.
pub open spec fn seg_len(pts: Seq<Pt2D>, i: int) -> int {
    seg_dir(pts, i).norm as int / NORM_SCALE as int
}

/// The length of the first `k` segments together: the distance along the
/// line at which point `k` lies.
pub open spec fn length_upto(pts: Seq<Pt2D>, k: int) -> int
    decreases k,
{
    if k <= 0 {
        0
    } else {
        length_upto(pts, k - 1) + seg_len(pts, k - 1)
    }
}

/// The length of the whole line.
pub open spec fn spec_length(pts: Seq<Pt2D>) -> int {
    length_upto(pts, pts.len() - 1)
}

/// The points make a line: at least two of them, all on the map, no two in
/// a row the same, and not longer in all than `MAX_LINE_LENGTH`.
pub open spec fn valid_line(pts: Seq<Pt2D>) -> bool {
    &&& pts.len() >= 2
    &&& all_within(pts, WORLD_LIMIT as int)
    &&& forall|i: int| 0 <= i < pts.len() - 1 ==> #[trigger] pts[i] != pts[i + 1]
    &&& spec_length(pts) <= MAX_LINE_LENGTH
}

/// The segment that starts at point `i` holds the distance `d`: `d` is at
/// least where the segment starts and below where it ends, or `d` is the
/// length of the line and the segment is the last.
pub open spec fn holds_distance(pts: Seq<Pt2D>, i: int, d: int) -> bool {
    &&& 0 <= i < pts.len() - 1
    &&& length_upto(pts, i) <= d
    &&& d < length_upto(pts, i + 1) || (i == pts.len() - 2 && d == spec_length(pts))
}

/// The segment that holds the distance `d`.
pub open spec fn segment_of(pts: Seq<Pt2D>, d: int) -> int {
    choose|i: int| holds_distance(pts, i, d)
}

/// The point at distance `d` along the line, and the direction of the line
/// there.
pub open spec fn spec_dist_along(pts: Seq<Pt2D>, d: int) -> (Pt2D, Direction) {
    let i = segment_of(pts, d);
    let dir = seg_dir(pts, i);
    let step = dir.spec_scaled(d - length_upto(pts, i), 1);
    (Pt2D { x: (pts[i].x + step.0) as i64, y: (pts[i].y + step.1) as i64 }, dir)
}

/// A segment between two points of the map has a length of at least zero,
/// and of at least one unless the points coincide; the length, scaled, does
/// not exceed the scaled length of the direction.
pub proof fn lemma_segment(pts: Seq<Pt2D>, i: int)
    requires
        all_within(pts, WORLD_LIMIT as int),
        0 <= i < pts.len() - 1,
    ensures
        0 <= seg_len(pts, i) <= 0x200_0000_0000,
        seg_len(pts, i) * NORM_SCALE <= seg_dir(pts, i).norm,
        pts[i] != pts[i + 1] ==> seg_len(pts, i) >= 1 && seg_dir(pts, i).wf(),
{
    assert(pts[i].within(WORLD_LIMIT as int));
    assert(pts[i + 1].within(WORLD_LIMIT as int));
    Direction::lemma_between(pts[i], pts[i + 1]);
    let dir = seg_dir(pts, i);
    let norm = dir.norm as int;
    if pts[i] != pts[i + 1] {
        dir.lemma_norm();
    }
    assert(0 <= norm / 0x10_0000 <= 0x200_0000_0000 && (norm / 0x10_0000) * 0x10_0000 <= norm);
    assert(norm >= 0x10_0000 ==> norm / 0x10_0000 >= 1);
}

/// The distance at which a point lies does not decrease along the line, and
/// grows by at least one with every segment of a valid line.
pub proof fn lemma_length_upto_grows(pts: Seq<Pt2D>, i: int, j: int)
    requires
        all_within(pts, WORLD_LIMIT as int),
        0 <= i <= j <= pts.len() - 1,
    ensures
        0 <= length_upto(pts, i) <= length_upto(pts, j),
        valid_line(pts) ==> length_upto(pts, i) + (j - i) <= length_upto(pts, j),
    decreases j,
{
    if i < j {
        lemma_length_upto_grows(pts, i, j - 1);
        lemma_segment(pts, j - 1);
    } else if i > 0 {
        lemma_length_upto_grows(pts, i - 1, i - 1);
        lemma_segment(pts, i - 1);
    }
}

/// On a valid line one segment at most holds a given distance.
pub proof fn lemma_segment_of(pts: Seq<Pt2D>, i: int, d: int)
    requires
        valid_line(pts),
        holds_distance(pts, i, d),
    ensures
        segment_of(pts, d) == i,
{
    let j = segment_of(pts, d);
    assert(holds_distance(pts, j, d));
    if j < i {
        lemma_length_upto_grows(pts, j + 1, i);
        lemma_length_upto_grows(pts, i, pts.len() - 1);
    } else if i < j {
        lemma_length_upto_grows(pts, i + 1, j);
        lemma_length_upto_grows(pts, j, pts.len() - 1);
    }
}

/// The point at a distance that is on the line lies on the map, and the
/// direction there is well formed.
pub proof fn lemma_dist_along(pts: Seq<Pt2D>, d: int)
    requires
        valid_line(pts),
        0 <= d <= spec_length(pts),
    ensures
        holds_distance(pts, segment_of(pts, d), d),
        spec_dist_along(pts, d).0.within(WORLD_LIMIT as int),
        spec_dist_along(pts, d).1.wf(),
{
    lemma_segment_exists(pts, d, pts.len() - 2);
    let i = segment_of(pts, d);
    lemma_point_on_segment(pts, i, d);
}

/// Some segment at or before `last` holds any distance from zero to where
/// segment `last` ends.
proof fn lemma_segment_exists(pts: Seq<Pt2D>, d: int, last: int)
    requires
        valid_line(pts),
        0 <= last <= pts.len() - 2,
        0 <= d <= length_upto(pts, last + 1),
        d < length_upto(pts, last + 1) || last == pts.len() - 2,
    ensures
        exists|i: int| holds_distance(pts, i, d),
    decreases last,
{
    if length_upto(pts, last) <= d {
        assert(holds_distance(pts, last, d));
    } else {
        lemma_length_upto_grows(pts, 0, 0);
        lemma_segment_exists(pts, d, last - 1);
    }
}

/// The point at distance `d`, found on segment `i`, lies between the ends of
/// that segment.
proof fn lemma_point_on_segment(pts: Seq<Pt2D>, i: int, d: int)
    requires
        valid_line(pts),
        holds_distance(pts, i, d),
    ensures
        segment_of(pts, d) == i,
        seg_dir(pts, i).wf(),
        0 <= d - length_upto(pts, i) <= seg_len(pts, i),
        spec_dist_along(pts, d).0.within(WORLD_LIMIT as int),
        spec_dist_along(pts, d).1 == seg_dir(pts, i),
        -WORLD_LIMIT <= pts[i].x + seg_dir(pts, i).spec_scaled(d - length_upto(pts, i), 1).0
            <= WORLD_LIMIT,
        -WORLD_LIMIT <= pts[i].y + seg_dir(pts, i).spec_scaled(d - length_upto(pts, i), 1).1
            <= WORLD_LIMIT,
{
    lemma_segment_of(pts, i, d);
    lemma_segment(pts, i);
    let dir = seg_dir(pts, i);
    let t = d - length_upto(pts, i);
    assert(pts[i].within(WORLD_LIMIT as int));
    assert(pts[i + 1].within(WORLD_LIMIT as int));
    dir.lemma_norm();
    assert(t * NORM_SCALE <= dir.norm) by (nonlinear_arith)
        requires
            0 <= t <= seg_len(pts, i),
            seg_len(pts, i) * NORM_SCALE <= dir.norm,
    ;
    lemma_component_within(dir.dx as int, dir.norm as int, t);
    lemma_component_within(dir.dy as int, dir.norm as int, t);
}

/// A line.
#[derive(Debug)]
pub struct PolyLine {
    pts: Vec<Pt2D>,
    dirs: Vec<Direction>,
    ends: Vec<i64>,
}

impl View for PolyLine {
    type V = Seq<Pt2D>;

    /// The points of the line.
    closed spec fn view(&self) -> Seq<Pt2D> {
        self.pts@
    }
}

impl PolyLine {
    /// The points make a valid line, and what the line keeps beside them, the
    /// direction of each segment and the distance at which it ends, agrees
    /// with them.
    #[verifier::type_invariant]
    spec fn inv(self) -> bool {
        &&& valid_line(self.pts@)
        &&& self.dirs@.len() == self.pts@.len() - 1
        &&& self.ends@.len() == self.pts@.len() - 1
        &&& forall|i: int|
            0 <= i < self.dirs@.len() ==> #[trigger] self.dirs@[i] == seg_dir(self.pts@, i)
        &&& forall|i: int|
            0 <= i < self.ends@.len() ==> #[trigger] self.ends@[i] == length_upto(self.pts@, i + 1)
    }

    /// The line through `pts`, or `MalformedGeometry` when they make none.
    pub fn new(pts: Vec<Pt2D>) -> (r: Result<PolyLine, ProcgenError>)
        ensures
            r.is_ok() <==> valid_line(pts@),
            r matches Ok(line) ==> line@ == pts@,
            r matches Err(e) ==> e == ProcgenError::MalformedGeometry,
    {
        if pts.len() < 2 {
            return Err(ProcgenError::MalformedGeometry);
        }
        let mut k: usize = 0;
        while k < pts.len()
            invariant
                0 <= k <= pts.len(),
                forall|j: int| 0 <= j < k ==> (#[trigger] pts@[j]).within(WORLD_LIMIT as int),
            decreases pts.len() - k,
        {
            if !pts[k].is_within(WORLD_LIMIT) {
                return Err(ProcgenError::MalformedGeometry);
            }
            k += 1;
        }
        let mut dirs: Vec<Direction> = Vec::new();
        let mut ends: Vec<i64> = Vec::new();
        let mut total: i64 = 0;
        let mut i: usize = 0;
        while i < pts.len() - 1
            invariant
                pts.len() >= 2,
                0 <= i <= pts.len() - 1,
                all_within(pts@, WORLD_LIMIT as int),
                dirs@.len() == i,
                ends@.len() == i,
                total == length_upto(pts@, i as int),
                0 <= total <= MAX_LINE_LENGTH,
                forall|j: int| 0 <= j < i ==> #[trigger] pts@[j] != pts@[j + 1],
                forall|j: int| 0 <= j < i ==> #[trigger] dirs@[j] == seg_dir(pts@, j),
                forall|j: int| 0 <= j < i ==> #[trigger] ends@[j] == length_upto(pts@, j + 1),
            decreases pts.len() - i,
        {
            assert(pts@[i as int].within(WORLD_LIMIT as int));
            assert(pts@[i + 1].within(WORLD_LIMIT as int));
            proof {
                lemma_segment(pts@, i as int);
                lemma_length_upto_grows(pts@, i + 1, pts.len() - 1);
            }
            let dir: Direction = match Direction::between(pts[i], pts[i + 1]) {
                Some(dir) => dir,
                None => {
                    return Err(ProcgenError::MalformedGeometry);
                },
            };
            let len: i64 = dir.norm / NORM_SCALE;
            if len > MAX_LINE_LENGTH - total {
                return Err(ProcgenError::MalformedGeometry);
            }
            total = total + len;
            dirs.push(dir);
            ends.push(total);
            i += 1;
        }
        Ok(PolyLine { pts, dirs, ends })
    }

    /// The points of the line.
    pub fn points(&self) -> (pts: &Vec<Pt2D>)
        ensures
            pts@ == self@,
            valid_line(self@),
    {
        proof {
            use_type_invariant(self);
        }
        &self.pts
    }

    /// The length of the line.
    pub fn length(&self) -> (len: i64)
        ensures
            len == spec_length(self@),
            1 <= len <= MAX_LINE_LENGTH,
            valid_line(self@),
    {
        proof {
            use_type_invariant(self);
            lemma_length_upto_grows(self.pts@, 0, self.pts@.len() - 1);
        }
        self.ends[self.ends.len() - 1]
    }

    /// The point at distance `d` along the line and the direction of the
    /// line there, or `MalformedGeometry` when `d` is not on the line.
    pub fn dist_along(&self, d: i64) -> (r: Result<(Pt2D, Direction), ProcgenError>)
        ensures
            valid_line(self@),
            r.is_ok() <==> 0 <= d <= spec_length(self@),
            r matches Ok(at) ==> at == spec_dist_along(self@, d as int) && at.0.within(
                WORLD_LIMIT as int,
            ) && at.1.wf(),
            r matches Err(e) ==> e == ProcgenError::MalformedGeometry,
    {
        proof {
            use_type_invariant(self);
        }
        let last: usize = self.ends.len() - 1;
        if d < 0 || d > self.ends[last] {
            return Err(ProcgenError::MalformedGeometry);
        }
        let mut i: usize = 0;
        proof {
            lemma_length_upto_grows(self.pts@, 0, 0);
        }
        while i < last && d >= self.ends[i]
            invariant
                valid_line(self.pts@),
                self.ends@.len() == self.pts@.len() - 1,
                forall|j: int|
                    0 <= j < self.ends@.len() ==> #[trigger] self.ends@[j] == length_upto(
                        self.pts@,
                        j + 1,
                    ),
                last == self.ends@.len() - 1,
                0 <= i <= last,
                length_upto(self.pts@, i as int) <= d <= spec_length(self.pts@),
            decreases last - i,
        {
            i += 1;
        }
        let start: i64 = if i == 0 { 0 } else { self.ends[i - 1] };
        let dir: Direction = self.dirs[i];
        proof {
            assert(holds_distance(self.pts@, i as int, d as int));
            lemma_point_on_segment(self.pts@, i as int, d as int);
            lemma_segment(self.pts@, i as int);
        }
        let step: (i64, i64) = dir.scaled(d - start, 1);
        let from: Pt2D = self.pts[i];
        Ok((Pt2D { x: from.x + step.0, y: from.y + step.1 }, dir))
    }
}

} // verus!
