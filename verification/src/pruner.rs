//! Removing houses that hit each other.
//!
//! Houses are taken in the order in which they were placed. A house stays
//! unless it intersects one that stayed before it, so of two houses that
//! overlap the earlier one wins.

use vstd::prelude::*;
use crate::candidate::{candidate_views, Candidate, CandidateView};
use crate::geometry::{Bounds, Pt2D, MAX_COORD, MAX_DISTANCE};
use crate::polygon::spec_intersects;
use crate::spatial_index::{lemma_positions_meeting, SpatialIndex, INDEX_CAPACITY};

verus! {

/// The footprint `poly` intersects that of one of the houses `kept`.
pub open spec fn overlaps_any(kept: Seq<CandidateView>, poly: Seq<Pt2D>) -> bool {
    exists|j: int| 0 <= j < kept.len() && spec_intersects(poly, (#[trigger] kept[j]).polygon)
}

/// The houses that stay when each house, in order, is dropped if it
/// intersects one that stayed before it.
pub open spec fn spec_prune(houses: Seq<CandidateView>) -> Seq<CandidateView>
    decreases houses.len(),
{
    if houses.len() == 0 {
        Seq::empty()
    } else {
        let kept = spec_prune(houses.drop_last());
        if overlaps_any(kept, houses.last().polygon) {
            kept
        } else {
            kept.push(houses.last())
        }
    }
}

/// No house of the sequence intersects a house before it.
pub open spec fn pairwise_apart(houses: Seq<CandidateView>) -> bool {
    forall|i: int, j: int|
        0 <= i < j < houses.len() ==> !spec_intersects(
            (#[trigger] houses[j]).polygon,
            (#[trigger] houses[i]).polygon,
        )
}

/// Whether two polygons intersect does not depend on which is named first.
pub proof fn lemma_intersects_symmetric(p: Seq<Pt2D>, q: Seq<Pt2D>)
    ensures
        spec_intersects(p, q) == spec_intersects(q, p),
{
}

/// Every house that stays is one of the houses given, and no house that
/// stays intersects one that stayed before it.
pub proof fn lemma_prune(houses: Seq<CandidateView>)
    ensures
        forall|k: int|
            0 <= k < spec_prune(houses).len() ==> houses.contains(#[trigger] spec_prune(houses)[k]),
        pairwise_apart(spec_prune(houses)),
        spec_prune(houses).len() <= houses.len(),
    decreases houses.len(),
{
    if houses.len() > 0 {
        let front = houses.drop_last();
        lemma_prune(front);
        let kept = spec_prune(front);
        let all = spec_prune(houses);
        assert forall|k: int| 0 <= k < all.len() implies houses.contains(#[trigger] all[k]) by {
            if k < kept.len() {
                assert(all[k] == kept[k]);
                let i = choose|i: int| 0 <= i < front.len() && front[i] == kept[k];
                assert(houses[i] == all[k]);
            } else {
                assert(houses[houses.len() - 1] == all[k]);
            }
        }
        assert forall|i: int, j: int| 0 <= i < j < all.len() implies !spec_intersects(
            (#[trigger] all[j]).polygon,
            (#[trigger] all[i]).polygon,
        ) by {
            if j < kept.len() {
                assert(all[j] == kept[j] && all[i] == kept[i]);
            } else {
                assert(all[i] == kept[i]);
                assert(!overlaps_any(kept, houses.last().polygon));
            }
        }
    }
}

/// The first house always stays, and stays first.
pub proof fn lemma_prune_keeps_first(houses: Seq<CandidateView>)
    requires
        houses.len() >= 1,
    ensures
        spec_prune(houses).len() >= 1,
        spec_prune(houses)[0] == houses[0],
    decreases houses.len(),
{
    if houses.len() > 1 {
        lemma_prune_keeps_first(houses.drop_last());
    } else {
        assert(spec_prune(houses.drop_last()).len() == 0);
    }
}

/// The boxes of the footprints of the first `k` houses.
pub open spec fn footprint_bounds(houses: Seq<Candidate>, k: int) -> Seq<Bounds> {
    Seq::new(k as nat, |i: int| Bounds::spec_of(houses[i].polygon@))
}

/// Tests whether `house` intersects one of the houses `kept`. The index
/// holds the boxes of the first of them, and finds among those the few that
/// lie near enough to matter; the others are tried one by one.
fn overlaps_kept(house: &Candidate, kept: &Vec<Candidate>, index: &SpatialIndex, buffer: i64) -> (b:
    bool)
    requires
        index.wf(),
        index@.len() <= kept@.len(),
        index@ == footprint_bounds(kept@, index@.len() as int),
        0 <= buffer <= MAX_DISTANCE,
    ensures
        b == overlaps_any(candidate_views(kept@), house.polygon@),
{
    let ghost poly = house.polygon@;
    let ghost views = candidate_views(kept@);
    let tight: Bounds = house.polygon.get_bounds();
    let mut search: Bounds = tight;
    search.add_buffer(buffer);
    let hits: Vec<usize> = index.query(&search);
    let indexed: usize = index.len();
    proof {
        lemma_positions_meeting(index@, search);
    }
    let mut k: usize = 0;
    while k < hits.len()
        invariant
            0 <= k <= hits.len(),
            index@.len() <= kept@.len(),
            views == candidate_views(kept@),
            poly == house.polygon@,
            forall|n: int| 0 <= n < hits@.len() ==> 0 <= #[trigger] hits@[n] < index@.len(),
            forall|n: int| 0 <= n < k ==> !spec_intersects(poly, views[hits@[n] as int].polygon),
        decreases hits.len() - k,
    {
        let at: usize = hits[k];
        if house.polygon.intersects(&kept[at].polygon) {
            assert(spec_intersects(poly, views[at as int].polygon));
            return true;
        }
        k += 1;
    }
    proof {
        assert forall|j: int| 0 <= j < index@.len() implies !spec_intersects(
            poly,
            (#[trigger] views[j]).polygon,
        ) by {
            if spec_intersects(poly, views[j].polygon) {
                assert(index@[j] == Bounds::spec_of(kept@[j].polygon@));
                assert(views[j].polygon == kept@[j].polygon@);
                assert(tight.spec_intersects(index@[j]));
                assert(index@[j].spec_intersects(search));
                assert(hits@.contains(j as usize));
                let n = choose|n: int| 0 <= n < hits@.len() && hits@[n] == j as usize;
                assert(!spec_intersects(poly, views[hits@[n] as int].polygon));
            }
        }
    }
    let mut j: usize = indexed;
    while j < kept.len()
        invariant
            index@.len() <= j <= kept@.len(),
            views == candidate_views(kept@),
            poly == house.polygon@,
            forall|n: int| 0 <= n < j ==> !spec_intersects(poly, (#[trigger] views[n]).polygon),
        decreases kept.len() - j,
    {
        if house.polygon.intersects(&kept[j].polygon) {
            assert(spec_intersects(poly, views[j as int].polygon));
            return true;
        }
        j += 1;
    }
    false
}

/// Removes the houses that hit a house placed before them. `frame` tells
/// where most houses lie, and `buffer` widens the box in which a house's
/// neighbors are looked for; neither changes what stays.
pub fn prune_overlapping_houses(houses: Vec<Candidate>, frame: &Bounds, buffer: i64) -> (kept: Vec<
    Candidate,
>)
    requires
        frame.wf(),
        frame.within(MAX_COORD as int),
        0 <= buffer <= MAX_DISTANCE,
    ensures
        candidate_views(kept@) == spec_prune(candidate_views(houses@)),
{
    let ghost all = candidate_views(houses@);
    let mut kept: Vec<Candidate> = Vec::new();
    let mut index: SpatialIndex = SpatialIndex::new(frame);
    proof {
        assert(index@ =~= footprint_bounds(kept@, 0));
        assert(all.take(0) =~= Seq::<CandidateView>::empty());
        assert(candidate_views(kept@) =~= spec_prune(all.take(0)));
    }
    for house in it: houses.into_iter()
        invariant
            all == candidate_views(houses@),
            0 <= buffer <= MAX_DISTANCE,
            index.wf(),
            index@.len() <= kept@.len(),
            index@.len() <= INDEX_CAPACITY,
            index@ == footprint_bounds(kept@, index@.len() as int),
            candidate_views(kept@) == spec_prune(all.take(it.index() as int)),
    {
        let ghost done = it.index() as int;
        let ghost before = kept@;
        proof {
            assert(all.take(done + 1).drop_last() =~= all.take(done));
            assert(all.take(done + 1).last() == house@);
        }
        if !overlaps_kept(&house, &kept, &index, buffer) {
            if index.len() == kept.len() && index.len() < INDEX_CAPACITY {
                let b: Bounds = house.polygon.get_bounds();
                index.insert(b);
            }
            kept.push(house);
            proof {
                assert(index@ =~= footprint_bounds(kept@, index@.len() as int));
                assert(candidate_views(kept@) =~= candidate_views(before).push(house@));
            }
        }
    }
    proof {
        assert(all.take(all.len() as int) =~= all);
    }
    kept
}

} // verus!
