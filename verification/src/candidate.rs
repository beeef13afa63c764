//! A candidate house: a rectangle beside a sidewalk, with the place on the
//! sidewalk that it was made for.

use vstd::prelude::*;
use crate::config::DistRange;
use crate::arith::lemma_trunc_div_error;
use crate::direction::{scaled_component, Direction, NORM_SCALE};
use crate::error::ProcgenError;
use crate::geometry::{Pt2D, MAX_DISTANCE};
use crate::network::{Lane, LaneID};
use crate::polygon::{spec_rectangle, Polygon};
use crate::polyline::{lemma_dist_along, spec_dist_along, spec_length, valid_line};

verus! {

/// A candidate.
#[derive(Debug)]
pub struct Candidate {
    /// The sidewalk that the house fronts.
    pub lane: LaneID,
    /// How far along the sidewalk the house sits.
    pub dist_along: i64,
    /// The side of the house along the sidewalk.
    pub width: i64,
    /// The side of the house away from the sidewalk.
    pub height: i64,
    /// The footprint.
    pub polygon: Polygon,
}

/// What a candidate says, with the footprint as its corners.
pub struct CandidateView {
    pub lane: LaneID,
    pub dist_along: i64,
    pub width: i64,
    pub height: i64,
    pub polygon: Seq<Pt2D>,
}

impl View for Candidate {
    type V = CandidateView;

    open spec fn view(&self) -> CandidateView {
        CandidateView {
            lane: self.lane,
            dist_along: self.dist_along,
            width: self.width,
            height: self.height,
            polygon: self.polygon@,
        }
    }
}

/// The views of a sequence of candidates.
pub open spec fn candidate_views(houses: Seq<Candidate>) -> Seq<CandidateView> {
    Seq::new(houses.len(), |i: int| houses[i]@)
}

/// The center of a house of the given height at `sidewalk_pt`, where the
/// sidewalk runs along `dir`: half the height beyond the setback, on the
/// side that `dir` turned by -90 degrees points to.
pub open spec fn spec_center(sidewalk_pt: Pt2D, dir: Direction, height: int, base_setback: int) -> Pt2D {
    let away = dir.spec_rotate_right().spec_scaled(2 * base_setback + height, 2);
    Pt2D { x: (sidewalk_pt.x + away.0) as i64, y: (sidewalk_pt.y + away.1) as i64 }
}

/// The candidate at distance `d` along the sidewalk `lane` with the center
/// line `line`: a rectangle of the given width along the sidewalk and the
/// given height across it, whose center stands back from the sidewalk by
/// the setback and half the height.
pub open spec fn spec_candidate(
    line: Seq<Pt2D>,
    lane: LaneID,
    base_setback: int,
    d: int,
    width: int,
    height: int,
) -> CandidateView {
    let at = spec_dist_along(line, d);
    let center = spec_center(at.0, at.1, height, base_setback);
    CandidateView {
        lane,
        dist_along: d as i64,
        width: width as i64,
        height: height as i64,
        polygon: spec_rectangle(center, at.1, width, height),
    }
}

/// The house `house` stands where placement puts one: at a distance along
/// its sidewalk that is on the sidewalk, with sides of the range that sides
/// are drawn from, and with the footprint that this place and these sides
/// give.
pub open spec fn placed_on(
    lanes: Seq<Lane>,
    size: DistRange,
    base_setback: int,
    house: CandidateView,
) -> bool {
    &&& house.lane.0 < lanes.len()
    &&& 0 <= house.dist_along < spec_length(lanes[house.lane.0 as int].lane_center_pts@)
    &&& size.holds(house.width as int)
    &&& size.holds(house.height as int)
    &&& house == spec_candidate(
        lanes[house.lane.0 as int].lane_center_pts@,
        house.lane,
        base_setback,
        house.dist_along as int,
        house.width as int,
        house.height as int,
    )
}

/// Where a corner of the front edge would lie if nothing were rounded,
/// multiplied by twice the scaled length of `dir`: from `sidewalk_pt`, the
/// setback along `dir` turned by -90 degrees, then half the width along
/// `dir`, forward for `side` 1 and backward for `side` -1.
pub open spec fn ideal_front_corner(
    sidewalk_pt: Pt2D,
    dir: Direction,
    base_setback: int,
    width: int,
    side: int,
) -> (int, int) {
    let away = dir.spec_rotate_right();
    (
        2 * dir.norm * sidewalk_pt.x + 2 * base_setback * NORM_SCALE * away.dx + side * (width
            * NORM_SCALE * dir.dx),
        2 * dir.norm * sidewalk_pt.y + 2 * base_setback * NORM_SCALE * away.dy + side * (width
            * NORM_SCALE * dir.dy),
    )
}

/// The coordinate `actual` lies less than three units from the coordinate
/// whose multiple by `den` is `ideal`.
pub open spec fn within_three_units(actual: int, ideal: int, den: int) -> bool {
    -3 * den < den * actual - ideal < 3 * den
}

/// The front of a house stands back from the sidewalk by the setback,
/// whatever the height of the house: each corner of the front edge, the last
/// two corners of the footprint, lies less than three units, in each
/// coordinate, from where it would lie if nothing were rounded.
pub proof fn lemma_front_edge_set_back(
    line: Seq<Pt2D>,
    lane: LaneID,
    base_setback: int,
    d: int,
    width: int,
    height: int,
)
    requires
        valid_line(line),
        0 <= d <= spec_length(line),
        0 <= width <= MAX_DISTANCE,
        0 <= height <= MAX_DISTANCE,
        0 <= base_setback <= MAX_DISTANCE,
    ensures
        ({
            let at = spec_dist_along(line, d);
            let footprint = spec_candidate(line, lane, base_setback, d, width, height).polygon;
            let ahead = ideal_front_corner(at.0, at.1, base_setback, width, 1);
            let behind = ideal_front_corner(at.0, at.1, base_setback, width, -1);
            let den = 2 * at.1.norm;
            &&& footprint.len() == 4
            &&& at.1.wf()
            &&& within_three_units(footprint[2].x as int, ahead.0, den)
            &&& within_three_units(footprint[2].y as int, ahead.1, den)
            &&& within_three_units(footprint[3].x as int, behind.0, den)
            &&& within_three_units(footprint[3].y as int, behind.1, den)
        }),
{
    lemma_dist_along(line, d);
    let at = spec_dist_along(line, d);
    let pt = at.0;
    let dir = at.1;
    let away = dir.spec_rotate_right();
    dir.lemma_norm();
    assert(away.wf()) by {
        let dx = dir.dx as int;
        let dy = dir.dy as int;
        assert(dy * dy + (-dx) * (-dx) == dx * dx + dy * dy) by (nonlinear_arith);
    }
    away.lemma_scaled_magnitude(2 * base_setback + height, 2);
    away.lemma_scaled_magnitude(height, 2);
    dir.lemma_scaled_magnitude(width, 2);
    let den = 2 * dir.norm;
    lemma_front_coordinate(
        pt.x as int,
        dir.dx as int,
        away.dx as int,
        dir.norm as int,
        base_setback,
        width,
        height,
        1,
    );
    lemma_front_coordinate(
        pt.y as int,
        dir.dy as int,
        away.dy as int,
        dir.norm as int,
        base_setback,
        width,
        height,
        1,
    );
    lemma_front_coordinate(
        pt.x as int,
        dir.dx as int,
        away.dx as int,
        dir.norm as int,
        base_setback,
        width,
        height,
        -1,
    );
    lemma_front_coordinate(
        pt.y as int,
        dir.dy as int,
        away.dy as int,
        dir.norm as int,
        base_setback,
        width,
        height,
        -1,
    );
}

/// One coordinate of a corner of the front edge: the sidewalk point, out by
/// the setback and half the height, back by half the height, and along by
/// half the width, each step rounded by itself.
proof fn lemma_front_coordinate(
    from: int,
    along: int,
    away: int,
    norm: int,
    base_setback: int,
    width: int,
    height: int,
    side: int,
)
    requires
        norm >= 1,
        side == 1 || side == -1,
    ensures
        ({
            let den = 2 * norm;
            let out = scaled_component(away, norm, 2 * base_setback + height, 2);
            let back = scaled_component(away, norm, height, 2);
            let step = scaled_component(along, norm, width, 2);
            let ideal = den * from + 2 * base_setback * NORM_SCALE * away + side * (width
                * NORM_SCALE * along);
            within_three_units(from + out + side * step - back, ideal, den)
        }),
{
    let den = 2 * norm;
    let out = scaled_component(away, norm, 2 * base_setback + height, 2);
    let back = scaled_component(away, norm, height, 2);
    let step = scaled_component(along, norm, width, 2);
    let n_out = (2 * base_setback + height) * NORM_SCALE * away;
    let n_back = height * NORM_SCALE * away;
    let n_step = width * NORM_SCALE * along;
    lemma_trunc_div_error(n_out, den);
    lemma_trunc_div_error(n_back, den);
    lemma_trunc_div_error(n_step, den);
    let e_out = out * den - n_out;
    let e_back = back * den - n_back;
    let e_step = step * den - n_step;
    assert(n_out - n_back == 2 * base_setback * NORM_SCALE * away) by (nonlinear_arith)
        requires
            n_out == (2 * base_setback + height) * 0x10_0000 * away,
            n_back == height * 0x10_0000 * away,
    ;
    assert(den * (from + out + side * step - back) == den * from + (n_out + e_out) + side * (n_step
        + e_step) - (n_back + e_back)) by (nonlinear_arith)
        requires
            e_out == out * den - n_out,
            e_back == back * den - n_back,
            e_step == step * den - n_step,
    ;
    assert(side * (n_step + e_step) == side * n_step + side * e_step) by (nonlinear_arith);
    assert(-den < side * e_step < den) by (nonlinear_arith)
        requires
            side == 1 || side == -1,
            -den < e_step < den,
    ;
}

/// Makes the candidate at distance `d` along `lane`, or fails with
/// `MalformedGeometry` when `d` is not on the lane.
pub fn make_candidate(lane: &Lane, d: i64, width: i64, height: i64, base_setback: i64) -> (r: Result<
    Candidate,
    ProcgenError,
>)
    requires
        0 <= width <= MAX_DISTANCE,
        0 <= height <= MAX_DISTANCE,
        0 <= base_setback <= MAX_DISTANCE,
    ensures
        r.is_ok() <==> 0 <= d <= spec_length(lane.lane_center_pts@),
        r matches Ok(house) ==> house@ == spec_candidate(
            lane.lane_center_pts@,
            lane.id,
            base_setback as int,
            d as int,
            width as int,
            height as int,
        ),
        r matches Err(e) ==> e == ProcgenError::MalformedGeometry,
{
    let (sidewalk_pt, dir) = match lane.lane_center_pts.dist_along(d) {
        Ok(at) => at,
        Err(e) => {
            return Err(e);
        },
    };
    let away_dir: Direction = dir.rotate_right();
    proof {
        away_dir.lemma_scaled_magnitude(2 * base_setback + height, 2);
    }
    let away: (i64, i64) = away_dir.scaled(2 * base_setback + height, 2);
    let center: Pt2D = Pt2D { x: sidewalk_pt.x + away.0, y: sidewalk_pt.y + away.1 };
    let polygon: Polygon = Polygon::rectangle(center, &dir, width, height);
    Ok(Candidate { lane: lane.id, dist_along: d, width, height, polygon })
}

} // verus!
