//! Removing houses that hit what already lies on the map.
//!
//! The outline of an obstacle may be a thin band around its edge, so the
//! test is not whether the two shapes intersect but whether a corner of the
//! house lies in the obstacle.

use vstd::prelude::*;
use crate::basemap::{obstacle_bounds, Basemap, Obstacle};
use crate::candidate::{candidate_views, Candidate, CandidateView};
use crate::geometry::{Bounds, Pt2D, MAX_COORD};
use crate::polygon::{spec_intersects, valid_polygon, Polygon};
use crate::pruner::pairwise_apart;
use crate::spatial_index::lemma_positions_meeting;

verus! {

/// Some corner of `poly` lies in `obstacle`.
pub open spec fn corner_inside(poly: Seq<Pt2D>, obstacle: Obstacle) -> bool {
    exists|k: int| 0 <= k < poly.len() && obstacle.spec_contains_pt(#[trigger] poly[k])
}

/// The footprint `poly` hits `obstacle`: their boxes meet and a corner of
/// the footprint lies in the obstacle.
pub open spec fn hits_obstacle(poly: Seq<Pt2D>, obstacle: Obstacle) -> bool {
    obstacle.spec_bounds().spec_intersects(Bounds::spec_of(poly)) && corner_inside(poly, obstacle)
}

/// The footprint `poly` hits none of the obstacles.
pub open spec fn clear_of(poly: Seq<Pt2D>, obstacles: Seq<Obstacle>) -> bool {
    forall|i: int| 0 <= i < obstacles.len() ==> !hits_obstacle(poly, #[trigger] obstacles[i])
}

/// The houses that hit none of the obstacles, in their order.
pub open spec fn spec_clear_houses(houses: Seq<CandidateView>, obstacles: Seq<Obstacle>) -> Seq<
    CandidateView,
>
    decreases houses.len(),
{
    if houses.len() == 0 {
        Seq::empty()
    } else {
        let kept = spec_clear_houses(houses.drop_last(), obstacles);
        if clear_of(houses.last().polygon, obstacles) {
            kept.push(houses.last())
        } else {
            kept
        }
    }
}

/// Every house that stays is one of the houses given and hits no obstacle,
/// and the houses that stay keep their order.
pub proof fn lemma_clear_houses(houses: Seq<CandidateView>, obstacles: Seq<Obstacle>)
    ensures
        forall|k: int|
            0 <= k < spec_clear_houses(houses, obstacles).len() ==> houses.contains(
                #[trigger] spec_clear_houses(houses, obstacles)[k],
            ) && clear_of(spec_clear_houses(houses, obstacles)[k].polygon, obstacles),
        pairwise_apart(houses) ==> pairwise_apart(spec_clear_houses(houses, obstacles)),
        spec_clear_houses(houses, obstacles).len() <= houses.len(),
        obstacles.len() == 0 ==> spec_clear_houses(houses, obstacles) == houses,
    decreases houses.len(),
{
    if houses.len() > 0 {
        let front = houses.drop_last();
        lemma_clear_houses(front, obstacles);
        let kept = spec_clear_houses(front, obstacles);
        let all = spec_clear_houses(houses, obstacles);
        assert forall|k: int| 0 <= k < all.len() implies houses.contains(#[trigger] all[k])
            && clear_of(all[k].polygon, obstacles) by {
            if k < kept.len() {
                assert(all[k] == kept[k]);
                let i = choose|i: int| 0 <= i < front.len() && front[i] == kept[k];
                assert(houses[i] == all[k]);
            } else {
                assert(houses[houses.len() - 1] == all[k]);
            }
        }
        if pairwise_apart(houses) {
            assert forall|i: int, j: int| 0 <= i < j < front.len() implies !spec_intersects(
                (#[trigger] front[j]).polygon,
                (#[trigger] front[i]).polygon,
            ) by {
                assert(front[j] == houses[j] && front[i] == houses[i]);
            }
            assert forall|i: int, j: int| 0 <= i < j < all.len() implies !spec_intersects(
                (#[trigger] all[j]).polygon,
                (#[trigger] all[i]).polygon,
            ) by {
                if j < kept.len() {
                    assert(all[j] == kept[j] && all[i] == kept[i]);
                } else {
                    assert(all[i] == kept[i]);
                    let n = choose|n: int| 0 <= n < front.len() && front[n] == kept[i];
                    assert(houses[n] == kept[i]);
                    assert(all[j] == houses[houses.len() - 1]);
                }
            }
        }
        if obstacles.len() == 0 {
            assert(all =~= houses);
        }
    }
}

/// Tests whether some corner of `poly` lies in `obstacle`.
fn has_corner_inside(poly: &Polygon, obstacle: &Obstacle) -> (b: bool)
    ensures
        b == corner_inside(poly@, *obstacle),
{
    let pts: &Vec<Pt2D> = poly.points();
    let mut k: usize = 0;
    while k < pts.len()
        invariant
            0 <= k <= pts.len(),
            pts@ == poly@,
            valid_polygon(pts@),
            forall|n: int| 0 <= n < k ==> !obstacle.spec_contains_pt(#[trigger] pts@[n]),
        decreases pts.len() - k,
    {
        assert(pts@[k as int].within(MAX_COORD as int));
        if obstacle.contains_pt(pts[k]) {
            return true;
        }
        k += 1;
    }
    false
}

/// Tests whether `house` hits none of the obstacles of `basemap`.
fn is_clear(house: &Candidate, basemap: &Basemap) -> (b: bool)
    ensures
        b == clear_of(house.polygon@, basemap@),
{
    let around: Bounds = house.polygon.get_bounds();
    let possible_hits: Vec<usize> = basemap.get_renderables_back_to_front(&around);
    let count: usize = basemap.len();
    let ghost boxes = obstacle_bounds(basemap@, basemap@.len() as int);
    proof {
        lemma_positions_meeting(boxes, around);
    }
    let mut k: usize = 0;
    while k < possible_hits.len()
        invariant
            0 <= k <= possible_hits.len(),
            boxes == obstacle_bounds(basemap@, basemap@.len() as int),
            around == Bounds::spec_of(house.polygon@),
            forall|n: int|
                0 <= n < possible_hits@.len() ==> {
                    let pos = #[trigger] possible_hits@[n];
                    0 <= pos < boxes.len() && boxes[pos as int].spec_intersects(around)
                },
            forall|n: int|
                0 <= n < k ==> !corner_inside(house.polygon@, basemap@[possible_hits@[n] as int]),
        decreases possible_hits.len() - k,
    {
        let at: usize = possible_hits[k];
        if has_corner_inside(&house.polygon, basemap.get(at)) {
            assert(hits_obstacle(house.polygon@, basemap@[at as int]));
            return false;
        }
        k += 1;
    }
    proof {
        assert forall|i: int| 0 <= i < basemap@.len() implies !hits_obstacle(
            house.polygon@,
            #[trigger] basemap@[i],
        ) by {
            if hits_obstacle(house.polygon@, basemap@[i]) {
                assert(boxes[i].spec_intersects(around));
                assert(possible_hits@.contains(i as usize));
                let n = choose|n: int|
                    0 <= n < possible_hits@.len() && possible_hits@[n] == i as usize;
                assert(!corner_inside(house.polygon@, basemap@[possible_hits@[n] as int]));
            }
        }
    }
    true
}

/// Removes the houses that hit something on the map.
pub fn prune_houses_on_basemap(houses: Vec<Candidate>, basemap: &Basemap) -> (kept: Vec<Candidate>)
    ensures
        candidate_views(kept@) == spec_clear_houses(candidate_views(houses@), basemap@),
{
    let ghost all = candidate_views(houses@);
    let mut kept: Vec<Candidate> = Vec::new();
    proof {
        assert(all.take(0) =~= Seq::<CandidateView>::empty());
        assert(candidate_views(kept@) =~= spec_clear_houses(all.take(0), basemap@));
    }
    for house in it: houses.into_iter()
        invariant
            all == candidate_views(houses@),
            candidate_views(kept@) == spec_clear_houses(all.take(it.index() as int), basemap@),
    {
        let ghost done = it.index() as int;
        let ghost before = kept@;
        proof {
            assert(all.take(done + 1).drop_last() =~= all.take(done));
            assert(all.take(done + 1).last() == house@);
        }
        if is_clear(&house, basemap) {
            kept.push(house);
            proof {
                assert(candidate_views(kept@) =~= candidate_views(before).push(house@));
            }
        }
    }
    proof {
        assert(all.take(all.len() as int) =~= all);
    }
    kept
}

} // verus!
