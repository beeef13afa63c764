//! Polygons on the integer grid, with the two exact tests that placement
//! needs: whether two polygons intersect, and whether a point lies inside one.

use vstd::prelude::*;
use crate::direction::Direction;
use crate::geometry::{all_within, Bounds, Pt2D, MAX_COORD, MAX_DISTANCE};

verus! {

/// Largest magnitude of a coordinate of the center of a rectangle, which
/// leaves room for the corners: `MAX_COORD` less 2^31.
pub const RECT_CENTER_LIMIT: i64 = 0xFF_8000_0000;

/// Twice the signed area of the triangle `a`, `b`, `p`: positive when `p`
/// lies to the left of the line from `a` to `b`, negative when it lies to the
/// right, zero when it lies on the line.
pub open spec fn spec_cross(a: Pt2D, b: Pt2D, p: Pt2D) -> int {
    (b.x - a.x) * (p.y - a.y) - (b.y - a.y) * (p.x - a.x)
}

/// The index after `i` around a polygon of `n` points.
pub open spec fn next_index(n: int, i: int) -> int {
    if i + 1 >= n {
        0
    } else {
        i + 1
    }
}

/// No point of `pts` lies strictly to the left of the line from `a` to `b`.
pub open spec fn none_left_of(a: Pt2D, b: Pt2D, pts: Seq<Pt2D>) -> bool {
    forall|j: int| 0 <= j < pts.len() ==> spec_cross(a, b, #[trigger] pts[j]) <= 0
}

/// No point of `pts` lies strictly to the right of the line from `a` to `b`.
pub open spec fn none_right_of(a: Pt2D, b: Pt2D, pts: Seq<Pt2D>) -> bool {
    forall|j: int| 0 <= j < pts.len() ==> spec_cross(a, b, #[trigger] pts[j]) >= 0
}

/// No point of `pts` lies on the line through `a` and `b`.
pub open spec fn none_on(a: Pt2D, b: Pt2D, pts: Seq<Pt2D>) -> bool {
    forall|j: int| 0 <= j < pts.len() ==> spec_cross(a, b, #[trigger] pts[j]) != 0
}

/// The line through the edge of `p` that starts at point `i` separates the
/// two polygons: `p` lies on one closed side of it and `q` strictly on the
/// other.
pub open spec fn edge_separates(p: Seq<Pt2D>, i: int, q: Seq<Pt2D>) -> bool {
    let a = p[i];
    let b = p[next_index(p.len() as int, i)];
    ||| none_left_of(a, b, p) && none_right_of(a, b, q) && none_on(a, b, q)
    ||| none_right_of(a, b, p) && none_left_of(a, b, q) && none_on(a, b, q)
}

/// Some edge of `p` separates the two polygons.
pub open spec fn separated_by_edge_of(p: Seq<Pt2D>, q: Seq<Pt2D>) -> bool {
    exists|i: int| 0 <= i < p.len() && edge_separates(p, i, q)
}

/// The two polygons intersect: their bounding boxes meet and no edge of
/// either separates them. For convex polygons this is the separating axis
/// criterion, which is exact. For any polygons, what it calls apart shares
/// no point.
pub open spec fn spec_intersects(p: Seq<Pt2D>, q: Seq<Pt2D>) -> bool {
    &&& Bounds::spec_of(p).spec_intersects(Bounds::spec_of(q))
    &&& !separated_by_edge_of(p, q)
    &&& !separated_by_edge_of(q, p)
}

/// The ray from `p` toward growing x crosses the edge from `a` to `b`. The
/// lower end of an edge counts as part of it and the upper end does not, so
/// that a ray through a corner crosses the boundary once.
pub open spec fn edge_crosses_ray(a: Pt2D, b: Pt2D, p: Pt2D) -> bool {
    ||| a.y <= p.y < b.y && spec_cross(a, b, p) > 0
    ||| b.y <= p.y < a.y && spec_cross(a, b, p) < 0
}

/// How many of the first `k` edges of `poly` the ray from `p` crosses.
pub open spec fn crossings(poly: Seq<Pt2D>, p: Pt2D, k: int) -> nat
    decreases k,
{
    if k <= 0 {
        0
    } else {
        let earlier = crossings(poly, p, k - 1);
        if edge_crosses_ray(poly[k - 1], poly[next_index(poly.len() as int, k - 1)], p) {
            earlier + 1
        } else {
            earlier
        }
    }
}

/// `p` lies inside `poly` by the even-odd rule: a ray from `p` crosses the
/// boundary an odd number of times.
pub open spec fn spec_contains_pt(poly: Seq<Pt2D>, p: Pt2D) -> bool {
    crossings(poly, p, poly.len() as int) % 2 == 1
}

/// The corners of the rectangle of the given width along `dir` and height
/// across it, around `center`, in the order that goes around it: first the
/// two corners on the side that `dir` turned by -90 degrees points to, then
/// the two on the other side.
pub open spec fn spec_rectangle(center: Pt2D, dir: Direction, width: int, height: int) -> Seq<
    Pt2D,
> {
    let a = dir.spec_scaled(width, 2);
    let b = dir.spec_rotate_right().spec_scaled(height, 2);
    seq![
        Pt2D { x: (center.x - a.0 + b.0) as i64, y: (center.y - a.1 + b.1) as i64 },
        Pt2D { x: (center.x + a.0 + b.0) as i64, y: (center.y + a.1 + b.1) as i64 },
        Pt2D { x: (center.x + a.0 - b.0) as i64, y: (center.y + a.1 - b.1) as i64 },
        Pt2D { x: (center.x - a.0 - b.0) as i64, y: (center.y - a.1 - b.1) as i64 },
    ]
}

/// Every point of `pts` lies in the half-plane `a * x + b * y <= c`.
pub open spec fn half_plane_holds(a: int, b: int, c: int, pts: Seq<Pt2D>) -> bool {
    forall|j: int| 0 <= j < pts.len() ==> a * (#[trigger] pts[j]).x + b * pts[j].y <= c
}

/// The point `(x / den, y / den)` lies in the convex hull of `pts`: it lies
/// in every half-plane that holds all of them. The hull of a polygon's
/// corners covers the polygon.
pub open spec fn in_hull(pts: Seq<Pt2D>, x: int, y: int, den: int) -> bool {
    forall|a: int, b: int, c: int| #[trigger]
        half_plane_holds(a, b, c, pts) ==> a * x + b * y <= c * den
}

/// An edge that separates two polygons leaves no point to the hulls of
/// both.
proof fn lemma_edge_leaves_no_common_point(
    p: Seq<Pt2D>,
    i: int,
    q: Seq<Pt2D>,
    x: int,
    y: int,
    den: int,
)
    requires
        0 <= i < p.len(),
        edge_separates(p, i, q),
        den > 0,
    ensures
        !(in_hull(p, x, y, den) && in_hull(q, x, y, den)),
{
    if in_hull(p, x, y, den) && in_hull(q, x, y, den) {
        let a = p[i];
        let b = p[next_index(p.len() as int, i)];
        let ux = b.x - a.x;
        let uy = b.y - a.y;
        // cross(a, b, r) == ux * (r.y - a.y) - uy * (r.x - a.x)
        let g = ux * a.y - uy * a.x;
        assert forall|r: Pt2D| spec_cross(a, b, r) == (-uy) * r.x + ux * r.y - g by {
            assert(ux * (r.y - a.y) - uy * (r.x - a.x) == (-uy) * r.x + ux * r.y - (ux * a.y - uy
                * a.x)) by (nonlinear_arith);
        }
        if none_left_of(a, b, p) && none_right_of(a, b, q) && none_on(a, b, q) {
            assert(half_plane_holds(-uy, ux, g, p)) by {
                assert forall|j: int| 0 <= j < p.len() implies (-uy) * (#[trigger] p[j]).x + ux
                    * p[j].y <= g by {
                    assert(spec_cross(a, b, p[j]) <= 0);
                }
            }
            assert(half_plane_holds(uy, -ux, -g - 1, q)) by {
                assert forall|j: int| 0 <= j < q.len() implies uy * (#[trigger] q[j]).x + (-ux)
                    * q[j].y <= -g - 1 by {
                    assert(spec_cross(a, b, q[j]) >= 1);
                    assert(uy * q[j].x + (-ux) * q[j].y == -((-uy) * q[j].x + ux * q[j].y))
                        by (nonlinear_arith);
                }
            }
            assert((-uy) * x + ux * y <= g * den);
            assert(uy * x + (-ux) * y <= (-g - 1) * den);
            assert(false) by (nonlinear_arith)
                requires
                    (-uy) * x + ux * y <= g * den,
                    uy * x + (-ux) * y <= (-g - 1) * den,
                    den > 0,
            ;
        } else {
            assert(half_plane_holds(uy, -ux, -g, p)) by {
                assert forall|j: int| 0 <= j < p.len() implies uy * (#[trigger] p[j]).x + (-ux)
                    * p[j].y <= -g by {
                    assert(spec_cross(a, b, p[j]) >= 0);
                    assert(uy * p[j].x + (-ux) * p[j].y == -((-uy) * p[j].x + ux * p[j].y))
                        by (nonlinear_arith);
                }
            }
            assert(half_plane_holds(-uy, ux, g - 1, q)) by {
                assert forall|j: int| 0 <= j < q.len() implies (-uy) * (#[trigger] q[j]).x + ux
                    * q[j].y <= g - 1 by {
                    assert(spec_cross(a, b, q[j]) <= -1);
                }
            }
            assert(uy * x + (-ux) * y <= (-g) * den);
            assert((-uy) * x + ux * y <= (g - 1) * den);
            assert(false) by (nonlinear_arith)
                requires
                    uy * x + (-ux) * y <= (-g) * den,
                    (-uy) * x + ux * y <= (g - 1) * den,
                    den > 0,
            ;
        }
    }
}

/// Two polygons that do not intersect share no point: no point with
/// rational coordinates `(x / den, y / den)` lies in the hulls of both.
pub proof fn lemma_apart_polygons_share_no_point(
    p: Seq<Pt2D>,
    q: Seq<Pt2D>,
    x: int,
    y: int,
    den: int,
)
    requires
        p.len() > 0,
        q.len() > 0,
        den > 0,
        !spec_intersects(p, q),
    ensures
        !(in_hull(p, x, y, den) && in_hull(q, x, y, den)),
{
    if in_hull(p, x, y, den) && in_hull(q, x, y, den) {
        let bp = Bounds::spec_of(p);
        let bq = Bounds::spec_of(q);
        Bounds::lemma_spec_of(p, 0);
        Bounds::lemma_spec_of(q, 0);
        if !bp.spec_intersects(bq) {
            assert(half_plane_holds(1, 0, bp.max_x as int, p)) by {
                assert forall|j: int| 0 <= j < p.len() implies 1 * (#[trigger] p[j]).x + 0 * p[j].y
                    <= bp.max_x by {
                    assert(bp.spec_contains(p[j]));
                }
            }
            assert(half_plane_holds(-1, 0, -bp.min_x, p)) by {
                assert forall|j: int| 0 <= j < p.len() implies (-1) * (#[trigger] p[j]).x + 0
                    * p[j].y <= -bp.min_x by {
                    assert(bp.spec_contains(p[j]));
                }
            }
            assert(half_plane_holds(0, 1, bp.max_y as int, p)) by {
                assert forall|j: int| 0 <= j < p.len() implies 0 * (#[trigger] p[j]).x + 1 * p[j].y
                    <= bp.max_y by {
                    assert(bp.spec_contains(p[j]));
                }
            }
            assert(half_plane_holds(0, -1, -bp.min_y, p)) by {
                assert forall|j: int| 0 <= j < p.len() implies 0 * (#[trigger] p[j]).x + (-1)
                    * p[j].y <= -bp.min_y by {
                    assert(bp.spec_contains(p[j]));
                }
            }
            assert(half_plane_holds(1, 0, bq.max_x as int, q)) by {
                assert forall|j: int| 0 <= j < q.len() implies 1 * (#[trigger] q[j]).x + 0 * q[j].y
                    <= bq.max_x by {
                    assert(bq.spec_contains(q[j]));
                }
            }
            assert(half_plane_holds(-1, 0, -bq.min_x, q)) by {
                assert forall|j: int| 0 <= j < q.len() implies (-1) * (#[trigger] q[j]).x + 0
                    * q[j].y <= -bq.min_x by {
                    assert(bq.spec_contains(q[j]));
                }
            }
            assert(half_plane_holds(0, 1, bq.max_y as int, q)) by {
                assert forall|j: int| 0 <= j < q.len() implies 0 * (#[trigger] q[j]).x + 1 * q[j].y
                    <= bq.max_y by {
                    assert(bq.spec_contains(q[j]));
                }
            }
            assert(half_plane_holds(0, -1, -bq.min_y, q)) by {
                assert forall|j: int| 0 <= j < q.len() implies 0 * (#[trigger] q[j]).x + (-1)
                    * q[j].y <= -bq.min_y by {
                    assert(bq.spec_contains(q[j]));
                }
            }
            let pmx = bp.max_x as int;
            let pnx = bp.min_x as int;
            let pmy = bp.max_y as int;
            let pny = bp.min_y as int;
            let qmx = bq.max_x as int;
            let qnx = bq.min_x as int;
            let qmy = bq.max_y as int;
            let qny = bq.min_y as int;
            assert(false) by (nonlinear_arith)
                requires
                    den > 0,
                    1 * x + 0 * y <= pmx * den,
                    (-1) * x + 0 * y <= (-pnx) * den,
                    0 * x + 1 * y <= pmy * den,
                    0 * x + (-1) * y <= (-pny) * den,
                    1 * x + 0 * y <= qmx * den,
                    (-1) * x + 0 * y <= (-qnx) * den,
                    0 * x + 1 * y <= qmy * den,
                    0 * x + (-1) * y <= (-qny) * den,
                    pnx > qmx || qnx > pmx || pny > qmy || qny > pmy,
            ;
        } else if separated_by_edge_of(p, q) {
            let i = choose|i: int| 0 <= i < p.len() && edge_separates(p, i, q);
            lemma_edge_leaves_no_common_point(p, i, q, x, y, den);
        } else {
            let i = choose|i: int| 0 <= i < q.len() && edge_separates(q, i, p);
            lemma_edge_leaves_no_common_point(q, i, p, x, y, den);
        }
    }
}

/// A polygon: its corners in order, the last joined to the first.
#[derive(Debug)]
pub struct Polygon {
    pts: Vec<Pt2D>,
}

impl View for Polygon {
    type V = Seq<Pt2D>;

    closed spec fn view(&self) -> Seq<Pt2D> {
        self.pts@
    }
}

/// Which sides of a line a set of points occupies.
struct Sides {
    left: bool,
    right: bool,
    on: bool,
}

/// What makes a sequence of points a polygon: at least three corners, each
/// within `MAX_COORD`.
pub open spec fn valid_polygon(pts: Seq<Pt2D>) -> bool {
    pts.len() >= 3 && all_within(pts, MAX_COORD as int)
}

impl Polygon {
    #[verifier::type_invariant]
    spec fn inv(self) -> bool {
        valid_polygon(self.pts@)
    }


    /// The polygon with the corners `pts`, or `None` when there are fewer
    /// than three or one lies beyond `MAX_COORD`.
    pub fn new(pts: Vec<Pt2D>) -> (poly: Option<Polygon>)
        ensures
            poly.is_some() <==> valid_polygon(pts@),
            poly matches Some(p) ==> p@ == pts@,
    {
        if pts.len() < 3 {
            return None;
        }
        let mut i: usize = 0;
        while i < pts.len()
            invariant
                0 <= i <= pts.len(),
                forall|j: int| 0 <= j < i ==> (#[trigger] pts@[j]).within(MAX_COORD as int),
            decreases pts.len() - i,
        {
            if !pts[i].is_within(MAX_COORD) {
                return None;
            }
            i += 1;
        }
        Some(Polygon { pts })
    }

    /// The corners.
    pub fn points(&self) -> (pts: &Vec<Pt2D>)
        ensures
            pts@ == self@,
            valid_polygon(self@),
    {
        proof {
            use_type_invariant(self);
        }
        &self.pts
    }

    /// The smallest box that holds the polygon.
    pub fn get_bounds(&self) -> (b: Bounds)
        ensures
            b == Bounds::spec_of(self@),
            b.wf(),
            b.within(MAX_COORD as int),
            valid_polygon(self@),
    {
        proof {
            use_type_invariant(self);
        }
        let mut b: Bounds = Bounds::at(self.pts[0]);
        let mut i: usize = 1;
        proof {
            assert(self.pts@.take(1).len() == 1);
            assert(self.pts@.take(1)[0] == self.pts@[0]);
        }
        while i < self.pts.len()
            invariant
                1 <= i <= self.pts.len(),
                b == Bounds::spec_of(self.pts@.take(i as int)),
            decreases self.pts.len() - i,
        {
            proof {
                assert(self.pts@.take(i + 1).drop_last() =~= self.pts@.take(i as int));
                assert(self.pts@.take(i + 1).last() == self.pts@[i as int]);
            }
            b.update(self.pts[i]);
            i += 1;
        }
        proof {
            assert(self.pts@.take(self.pts.len() as int) =~= self.pts@);
            Bounds::lemma_spec_of(self@, MAX_COORD as int);
        }
        b
    }

    /// The rectangle of the given width along `dir` and height across it,
    /// around `center`.
    pub fn rectangle(center: Pt2D, dir: &Direction, width: i64, height: i64) -> (poly: Polygon)
        requires
            center.within(RECT_CENTER_LIMIT as int),
            dir.wf(),
            0 <= width <= MAX_DISTANCE,
            0 <= height <= MAX_DISTANCE,
        ensures
            poly@ == spec_rectangle(center, *dir, width as int, height as int),
    {
        let across: Direction = dir.rotate_right();
        proof {
            dir.lemma_scaled_magnitude(width as int, 2);
            across.lemma_scaled_magnitude(height as int, 2);
        }
        let a: (i64, i64) = dir.scaled(width, 2);
        let b: (i64, i64) = across.scaled(height, 2);
        let mut pts: Vec<Pt2D> = Vec::new();
        pts.push(Pt2D { x: center.x - a.0 + b.0, y: center.y - a.1 + b.1 });
        pts.push(Pt2D { x: center.x + a.0 + b.0, y: center.y + a.1 + b.1 });
        pts.push(Pt2D { x: center.x + a.0 - b.0, y: center.y + a.1 - b.1 });
        pts.push(Pt2D { x: center.x - a.0 - b.0, y: center.y - a.1 - b.1 });
        proof {
            assert(pts@ =~= spec_rectangle(center, *dir, width as int, height as int));
        }
        Polygon { pts }
    }

    /// Twice the signed area of the triangle `a`, `b`, `p`.
    pub fn cross(a: Pt2D, b: Pt2D, p: Pt2D) -> (c: i128)
        requires
            a.within(MAX_COORD as int),
            b.within(MAX_COORD as int),
            p.within(MAX_COORD as int),
        ensures
            c == spec_cross(a, b, p),
    {
        let ux: i128 = b.x as i128 - a.x as i128;
        let uy: i128 = b.y as i128 - a.y as i128;
        let vx: i128 = p.x as i128 - a.x as i128;
        let vy: i128 = p.y as i128 - a.y as i128;
        assert(-0x40_0000_0000_0000_0000_0000 <= ux * vy <= 0x40_0000_0000_0000_0000_0000)
            by (nonlinear_arith)
            requires
                -0x200_0000_0000 <= ux <= 0x200_0000_0000,
                -0x200_0000_0000 <= vy <= 0x200_0000_0000,
        ;
        assert(-0x40_0000_0000_0000_0000_0000 <= uy * vx <= 0x40_0000_0000_0000_0000_0000)
            by (nonlinear_arith)
            requires
                -0x200_0000_0000 <= uy <= 0x200_0000_0000,
                -0x200_0000_0000 <= vx <= 0x200_0000_0000,
        ;
        ux * vy - uy * vx
    }

    /// Finds which sides of the line from `a` to `b` the points occupy.
    fn sides(a: Pt2D, b: Pt2D, pts: &Vec<Pt2D>) -> (s: Sides)
        requires
            a.within(MAX_COORD as int),
            b.within(MAX_COORD as int),
            all_within(pts@, MAX_COORD as int),
        ensures
            !s.left <==> none_left_of(a, b, pts@),
            !s.right <==> none_right_of(a, b, pts@),
            !s.on <==> none_on(a, b, pts@),
    {
        let mut s = Sides { left: false, right: false, on: false };
        let ghost mut at_left: int = 0;
        let ghost mut at_right: int = 0;
        let ghost mut at_on: int = 0;
        let mut j: usize = 0;
        while j < pts.len()
            invariant
                0 <= j <= pts.len(),
                a.within(MAX_COORD as int),
                b.within(MAX_COORD as int),
                all_within(pts@, MAX_COORD as int),
                !s.left ==> forall|k: int| 0 <= k < j ==> spec_cross(a, b, #[trigger] pts@[k]) <= 0,
                !s.right ==> forall|k: int| 0 <= k < j ==> spec_cross(a, b, #[trigger] pts@[k]) >= 0,
                !s.on ==> forall|k: int| 0 <= k < j ==> spec_cross(a, b, #[trigger] pts@[k]) != 0,
                s.left ==> 0 <= at_left < j && spec_cross(a, b, pts@[at_left]) > 0,
                s.right ==> 0 <= at_right < j && spec_cross(a, b, pts@[at_right]) < 0,
                s.on ==> 0 <= at_on < j && spec_cross(a, b, pts@[at_on]) == 0,
            decreases pts.len() - j,
        {
            assert(pts@[j as int].within(MAX_COORD as int));
            let c: i128 = Self::cross(a, b, pts[j]);
            if c > 0 {
                s.left = true;
                proof {
                    at_left = j as int;
                }
            } else if c < 0 {
                s.right = true;
                proof {
                    at_right = j as int;
                }
            } else {
                s.on = true;
                proof {
                    at_on = j as int;
                }
            }
            j += 1;
        }
        s
    }

    /// Tests whether the line through the edge that starts at corner `i`
    /// separates this polygon from `other`.
    fn edge_separates_from(&self, i: usize, other: &Polygon) -> (b: bool)
        requires
            i < self@.len(),
        ensures
            b == edge_separates(self@, i as int, other@),
    {
        proof {
            use_type_invariant(self);
            use_type_invariant(other);
        }
        let next: usize = if i == self.pts.len() - 1 { 0 } else { i + 1 };
        let a: Pt2D = self.pts[i];
        let b: Pt2D = self.pts[next];
        assert(self@[i as int].within(MAX_COORD as int));
        assert(self@[next as int].within(MAX_COORD as int));
        let own: Sides = Self::sides(a, b, &self.pts);
        let theirs: Sides = Self::sides(a, b, &other.pts);
        (!own.left && !theirs.right && !theirs.on) || (!own.right && !theirs.left && !theirs.on)
    }

    /// Tests whether some edge of this polygon separates it from `other`.
    fn separated_from(&self, other: &Polygon) -> (b: bool)
        ensures
            b == separated_by_edge_of(self@, other@),
    {
        let mut i: usize = 0;
        while i < self.pts.len()
            invariant
                0 <= i <= self.pts.len(),
                forall|k: int| 0 <= k < i ==> !edge_separates(self@, k, other@),
            decreases self.pts.len() - i,
        {
            if self.edge_separates_from(i, other) {
                return true;
            }
            i += 1;
        }
        false
    }

    /// Tests whether the two polygons intersect.
    pub fn intersects(&self, other: &Polygon) -> (b: bool)
        ensures
            b == spec_intersects(self@, other@),
    {
        if !self.get_bounds().intersects(&other.get_bounds()) {
            return false;
        }
        if self.separated_from(other) {
            return false;
        }
        !other.separated_from(self)
    }

    /// Tests whether `p` lies inside the polygon.
    pub fn contains_pt(&self, p: Pt2D) -> (b: bool)
        requires
            p.within(MAX_COORD as int),
        ensures
            b == spec_contains_pt(self@, p),
    {
        proof {
            use_type_invariant(self);
        }
        let mut inside: bool = false;
        let mut i: usize = 0;
        while i < self.pts.len()
            invariant
                0 <= i <= self.pts.len(),
                valid_polygon(self.pts@),
                p.within(MAX_COORD as int),
                inside == (crossings(self@, p, i as int) % 2 == 1),
            decreases self.pts.len() - i,
        {
            let next: usize = if i == self.pts.len() - 1 { 0 } else { i + 1 };
            let a: Pt2D = self.pts[i];
            let b: Pt2D = self.pts[next];
            assert(self@[i as int].within(MAX_COORD as int));
            assert(self@[next as int].within(MAX_COORD as int));
            let c: i128 = Self::cross(a, b, p);
            if (a.y <= p.y && p.y < b.y && c > 0) || (b.y <= p.y && p.y < a.y && c < 0) {
                inside = !inside;
            }
            i += 1;
        }
        inside
    }
}

} // verus!
