//! Procedurally generated buildings: houses along the sidewalks of
//! residential roads that have none.
//!
//! The sidewalks are selected, houses are placed along each, houses that hit
//! an earlier house are removed, and then houses that hit something on the
//! map. Each step feeds the next; nothing is fed back.

use vstd::prelude::*;
use crate::basemap::{Basemap, Obstacle};
use crate::candidate::{
    candidate_views, ideal_front_corner, lemma_front_edge_set_back, placed_on, within_three_units,
    Candidate, CandidateView,
};
use crate::config::PlacementConfig;
use crate::error::ProcgenError;
use crate::filter::{clear_of, lemma_clear_houses, prune_houses_on_basemap, spec_clear_houses};
use crate::geometry::Bounds;
use crate::network::{valid_center_lines, Lane, LaneID, RoadNetwork};
use crate::placer::{
    all_at_most, drawn_since, lemma_place_all_lanes, line_of, place_candidates, some_at_least,
    spec_place_all,
};
use crate::polyline::spec_dist_along;
use crate::polygon::Polygon;
use crate::pruner::{
    lemma_prune, lemma_prune_keeps_first, pairwise_apart, prune_overlapping_houses, spec_prune,
};
use crate::random::RandomStream;

verus! {

/// The houses that generation leaves, from the numbers drawn: those placed
/// along the sidewalks `sidewalks`, less those that hit an earlier house,
/// less those that hit an obstacle.
pub open spec fn spec_generate(
    lanes: Seq<Lane>,
    sidewalks: Seq<LaneID>,
    obstacles: Seq<Obstacle>,
    config: PlacementConfig,
    draws: Seq<i64>,
) -> Seq<CandidateView> {
    spec_clear_houses(spec_prune(spec_place_all(lanes, sidewalks, config, draws)), obstacles)
}

/// Generation is a function of the road network, the buildings that stand,
/// the obstacles, the settings and the numbers drawn: two runs that agree
/// in all of these leave the same houses in the same order.
pub proof fn lemma_same_draws_same_houses(
    lanes: Seq<Lane>,
    sidewalks: Seq<LaneID>,
    obstacles: Seq<Obstacle>,
    config: PlacementConfig,
    draws_a: Seq<i64>,
    draws_b: Seq<i64>,
)
    requires
        draws_a =~= draws_b,
    ensures
        spec_generate(lanes, sidewalks, obstacles, config, draws_a) == spec_generate(
            lanes,
            sidewalks,
            obstacles,
            config,
            draws_b,
        ),
{
}

/// Whatever is drawn, no generated house intersects another, none hits an
/// obstacle, and each stands along one of the sidewalks selected.
pub proof fn lemma_generated_houses(
    lanes: Seq<Lane>,
    sidewalks: Seq<LaneID>,
    obstacles: Seq<Obstacle>,
    config: PlacementConfig,
    draws: Seq<i64>,
)
    ensures
        pairwise_apart(spec_generate(lanes, sidewalks, obstacles, config, draws)),
        forall|k: int|
            0 <= k < spec_generate(lanes, sidewalks, obstacles, config, draws).len() ==> {
                let house = #[trigger] spec_generate(lanes, sidewalks, obstacles, config, draws)[k];
                clear_of(house.polygon, obstacles) && sidewalks.contains(house.lane)
            },
{
    let placed = spec_place_all(lanes, sidewalks, config, draws);
    let apart = spec_prune(placed);
    let left = spec_clear_houses(apart, obstacles);
    lemma_place_all_lanes(lanes, sidewalks, config, draws);
    lemma_prune(placed);
    lemma_clear_houses(apart, obstacles);
    assert forall|k: int| 0 <= k < left.len() implies clear_of(
        (#[trigger] left[k]).polygon,
        obstacles,
    ) && sidewalks.contains(left[k].lane) by {
        assert(apart.contains(left[k]));
        let i = choose|i: int| 0 <= i < apart.len() && apart[i] == left[k];
        assert(placed.contains(apart[i]));
        let j = choose|j: int| 0 <= j < placed.len() && placed[j] == left[k];
        assert(sidewalks.contains(placed[j].lane));
    }
}

/// The front of a house that stands where placement puts one stands back
/// from its sidewalk by the base setback, whatever the height of the house:
/// each corner of the front edge, the last two corners of the footprint,
/// lies less than three units, in each coordinate, from where it would lie
/// if nothing were rounded.
pub proof fn lemma_house_set_back(lanes: Seq<Lane>, config: PlacementConfig, house: CandidateView)
    requires
        valid_center_lines(lanes),
        config.valid(),
        placed_on(lanes, config.size, config.base_setback as int, house),
    ensures
        ({
            let at = spec_dist_along(line_of(lanes, house.lane), house.dist_along as int);
            let ahead = ideal_front_corner(
                at.0,
                at.1,
                config.base_setback as int,
                house.width as int,
                1,
            );
            let behind = ideal_front_corner(
                at.0,
                at.1,
                config.base_setback as int,
                house.width as int,
                -1,
            );
            let den = 2 * at.1.norm;
            &&& house.polygon.len() == 4
            &&& at.1.wf()
            &&& within_three_units(house.polygon[2].x as int, ahead.0, den)
            &&& within_three_units(house.polygon[2].y as int, ahead.1, den)
            &&& within_three_units(house.polygon[3].x as int, behind.0, den)
            &&& within_three_units(house.polygon[3].y as int, behind.1, den)
        }),
{
    lemma_front_edge_set_back(
        line_of(lanes, house.lane),
        house.lane,
        config.base_setback as int,
        house.dist_along as int,
        house.width as int,
        house.height as int,
    );
}

/// Generates houses on the empty sidewalks of residential roads.
///
/// Invalid settings are refused with `InvalidRange` before anything is
/// drawn; nothing else fails. The houses returned are those that
/// [`spec_generate`] gives for the numbers drawn. Each stands where
/// placement puts a house, along a sidewalk of a residential road that no
/// building fronted; no two of them intersect; and none hits an obstacle.
/// Where nothing lies on the map and some selected sidewalk is as long as
/// the largest first offset, at least one house is returned; where every
/// selected sidewalk is as short as the smallest first offset, none is.
pub fn generate_buildings_on_empty_residential_roads(
    network: &RoadNetwork,
    basemap: &Basemap,
    rng: &mut RandomStream,
    config: &PlacementConfig,
) -> (r: Result<Vec<Candidate>, ProcgenError>)
    ensures
        r.is_ok() <==> config.valid(),
        r matches Err(e) ==> e == ProcgenError::InvalidRange && final(rng)@ == old(rng)@,
        r matches Ok(houses) ==> {
            let draws = drawn_since(old(rng)@, final(rng)@);
            &&& final(rng)@ == old(rng)@ + draws
            &&& candidate_views(houses@) == spec_generate(
                network.spec_lanes(),
                network.spec_empty_residential_sidewalks(),
                basemap@,
                *config,
                draws,
            )
            &&& forall|k: int|
                0 <= k < houses@.len() ==> network.spec_eligible((#[trigger] houses@[k]@).lane)
                    && placed_on(
                    network.spec_lanes(),
                    config.size,
                    config.base_setback as int,
                    houses@[k]@,
                ) && clear_of(houses@[k]@.polygon, basemap@)
            &&& pairwise_apart(candidate_views(houses@))
            &&& basemap@.len() == 0 && some_at_least(
                network.spec_lanes(),
                network.spec_empty_residential_sidewalks(),
                config.first_offset.high as int,
            ) ==> houses@.len() >= 1
            &&& all_at_most(
                network.spec_lanes(),
                network.spec_empty_residential_sidewalks(),
                config.first_offset.low as int,
            ) ==> houses@.len() == 0
        },
{
    let empty_sidewalks: Vec<LaneID> = network.empty_residential_sidewalks();
    let houses: Vec<Candidate> = match place_candidates(network, &empty_sidewalks, rng, config) {
        Ok(houses) => houses,
        Err(e) => {
            return Err(e);
        },
    };
    let ghost placed = candidate_views(houses@);
    let frame: Bounds = network.get_bounds();
    let non_overlapping: Vec<Candidate> = prune_overlapping_houses(
        houses,
        &frame,
        config.overlap_buffer,
    );
    let ghost apart = candidate_views(non_overlapping@);
    let survivors: Vec<Candidate> = prune_houses_on_basemap(non_overlapping, basemap);
    proof {
        let left = candidate_views(survivors@);
        lemma_prune(placed);
        lemma_clear_houses(apart, basemap@);
        if placed.len() >= 1 {
            lemma_prune_keeps_first(placed);
        }
        assert forall|k: int| 0 <= k < survivors@.len() implies network.spec_eligible(
            (#[trigger] survivors@[k]@).lane,
        ) && placed_on(
            network.spec_lanes(),
            config.size,
            config.base_setback as int,
            survivors@[k]@,
        ) && clear_of(survivors@[k]@.polygon, basemap@) by {
            let house = survivors@[k]@;
            assert(house == left[k]);
            assert(apart.contains(left[k]));
            let i = choose|i: int| 0 <= i < apart.len() && apart[i] == house;
            assert(placed.contains(apart[i]));
            let j = choose|j: int| 0 <= j < placed.len() && placed[j] == house;
            assert(placed[j] == houses@[j]@);
            assert(empty_sidewalks@.contains(house.lane));
            let n = choose|n: int|
                0 <= n < empty_sidewalks@.len() && empty_sidewalks@[n] == house.lane;
            assert(network.spec_eligible(empty_sidewalks@[n]));
        }
    }
    Ok(survivors)
}

/// The houses of one generation run.
pub struct BuildingProceduralGenerator {
    houses: Vec<Candidate>,
}

impl View for BuildingProceduralGenerator {
    type V = Seq<CandidateView>;

    closed spec fn view(&self) -> Seq<CandidateView> {
        candidate_views(self.houses@)
    }
}

impl BuildingProceduralGenerator {
    /// Runs generation and keeps the houses. Fails as
    /// [`generate_buildings_on_empty_residential_roads`] does.
    pub fn new(
        network: &RoadNetwork,
        basemap: &Basemap,
        rng: &mut RandomStream,
        config: &PlacementConfig,
    ) -> (r: Result<BuildingProceduralGenerator, ProcgenError>)
        ensures
            r.is_ok() <==> config.valid(),
            r matches Err(e) ==> e == ProcgenError::InvalidRange && final(rng)@ == old(rng)@,
            r matches Ok(generator) ==> {
                let draws = drawn_since(old(rng)@, final(rng)@);
                &&& final(rng)@ == old(rng)@ + draws
                &&& generator@ == spec_generate(
                    network.spec_lanes(),
                    network.spec_empty_residential_sidewalks(),
                    basemap@,
                    *config,
                    draws,
                )
            },
    {
        match generate_buildings_on_empty_residential_roads(network, basemap, rng, config) {
            Ok(houses) => Ok(BuildingProceduralGenerator { houses }),
            Err(e) => Err(e),
        }
    }

    /// How many houses were generated.
    pub fn num_houses(&self) -> (n: usize)
        ensures
            n == self@.len(),
    {
        self.houses.len()
    }

    /// The houses, in the order in which they were placed.
    pub fn houses(&self) -> (houses: &Vec<Candidate>)
        ensures
            candidate_views(houses@) == self@,
    {
        &self.houses
    }

    /// The footprint of house `i`.
    pub fn footprint(&self, i: usize) -> (poly: &Polygon)
        requires
            i < self@.len(),
        ensures
            poly@ == self@[i as int].polygon,
    {
        &self.houses[i].polygon
    }
}

} // verus!
