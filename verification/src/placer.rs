//! Placing candidate houses along sidewalks.
//!
//! A sidewalk is walked from a random first offset. At each stop a house of
//! random width and height is made, and the walk goes on by the larger of the
//! two and a random gap, until it leaves the sidewalk. What comes out is
//! stated in terms of the numbers drawn: the draws for one sidewalk, in
//! order, are its run.

use vstd::prelude::*;
use crate::candidate::{
    candidate_views, make_candidate, placed_on, spec_candidate, Candidate, CandidateView,
};
use crate::config::PlacementConfig;
use crate::error::ProcgenError;
use crate::geometry::Pt2D;
use crate::network::{Lane, LaneID, RoadNetwork};
use crate::polyline::{spec_length, MAX_LINE_LENGTH};
use crate::random::{rand_dist, RandomStream};

verus! {

/// The larger of two numbers.
pub open spec fn larger(a: int, b: int) -> int {
    if a >= b {
        a
    } else {
        b
    }
}

/// The width drawn for house `k` of a run.
pub open spec fn width_of(run: Seq<i64>, k: int) -> int {
    run[3 * k + 1] as int
}

/// The height drawn for house `k` of a run.
pub open spec fn height_of(run: Seq<i64>, k: int) -> int {
    run[3 * k + 2] as int
}

/// The gap drawn after house `k` of a run.
pub open spec fn gap_of(run: Seq<i64>, k: int) -> int {
    run[3 * k + 3] as int
}

/// How many houses a run of this many draws describes: one draw for the
/// first offset, then three for each house.
pub open spec fn run_count(run: Seq<i64>) -> int {
    (run.len() - 1) / 3
}

/// The distance along the sidewalk of stop `k` of a run: the first offset,
/// and for each house before it the larger of its sides and the gap after
/// it.
pub open spec fn position(run: Seq<i64>, k: int) -> int
    decreases k,
{
    if k <= 0 {
        run[0] as int
    } else {
        position(run, k - 1) + larger(width_of(run, k - 1), height_of(run, k - 1)) + gap_of(
            run,
            k - 1,
        )
    }
}

/// Every draw of the run lies in the range that it was drawn from.
pub open spec fn draws_in_range(config: PlacementConfig, run: Seq<i64>) -> bool {
    &&& config.first_offset.holds(run[0] as int)
    &&& forall|k: int|
        0 <= k < run_count(run) ==> config.size.holds(#[trigger] width_of(run, k))
            && config.size.holds(height_of(run, k)) && config.gap.holds(gap_of(run, k))
}

/// The run walks a sidewalk of the given length from its start to its end:
/// every stop but the last lies on the sidewalk, and the last lies beyond it.
pub open spec fn complete_run(length: int, config: PlacementConfig, run: Seq<i64>) -> bool {
    &&& run.len() >= 1
    &&& run.len() == 3 * run_count(run) + 1
    &&& draws_in_range(config, run)
    &&& forall|k: int| 0 <= k < run_count(run) ==> #[trigger] position(run, k) < length
    &&& position(run, run_count(run)) >= length
}

/// The houses of a run along the sidewalk `lane` with the center line
/// `line`: one at each stop but the last.
pub open spec fn run_candidates(
    line: Seq<Pt2D>,
    lane: LaneID,
    config: PlacementConfig,
    run: Seq<i64>,
) -> Seq<CandidateView> {
    Seq::new(
        run_count(run) as nat,
        |k: int|
            spec_candidate(
                line,
                lane,
                config.base_setback as int,
                position(run, k),
                width_of(run, k),
                height_of(run, k),
            ),
    )
}

/// How much of a sidewalk of the given length lies beyond the distance `d`.
pub open spec fn left_to_walk(length: int, d: int) -> nat {
    if d < length {
        (length - d) as nat
    } else {
        0
    }
}

/// The draws made between two states of a stream.
pub open spec fn drawn_since(before: Seq<i64>, after: Seq<i64>) -> Seq<i64> {
    after.skip(before.len() as int)
}

/// The center line of the lane `id`.
pub open spec fn line_of(lanes: Seq<Lane>, id: LaneID) -> Seq<Pt2D> {
    lanes[id.0 as int].lane_center_pts@
}

/// Some sidewalk of `ids` is at least `length` long.
pub open spec fn some_at_least(lanes: Seq<Lane>, ids: Seq<LaneID>, length: int) -> bool {
    exists|j: int| 0 <= j < ids.len() && spec_length(line_of(lanes, #[trigger] ids[j])) >= length
}

/// Every sidewalk of `ids` is at most `length` long.
pub open spec fn all_at_most(lanes: Seq<Lane>, ids: Seq<LaneID>, length: int) -> bool {
    forall|j: int| 0 <= j < ids.len() ==> spec_length(line_of(lanes, #[trigger] ids[j])) <= length
}

/// The first stop from `k` on that lies beyond a sidewalk of the given
/// length, or that the draws do not reach.
pub open spec fn stop_index(length: int, draws: Seq<i64>, k: int) -> int
    decreases draws.len() - 3 * k,
{
    if k < 0 || 3 * k + 4 > draws.len() || position(draws, k) >= length {
        k
    } else {
        stop_index(length, draws, k + 1)
    }
}

/// How many of the draws the walk along a sidewalk of the given length
/// takes: those of its run.
pub open spec fn run_length(length: int, draws: Seq<i64>) -> int {
    3 * stop_index(length, draws, 0) + 1
}

/// The houses placed along the sidewalks `ids`, one sidewalk after the
/// other, from the given draws: each sidewalk takes its run from the front
/// of the draws and leaves the rest to the sidewalks after it.
pub open spec fn spec_place_all(
    lanes: Seq<Lane>,
    ids: Seq<LaneID>,
    config: PlacementConfig,
    draws: Seq<i64>,
) -> Seq<CandidateView>
    decreases ids.len(),
{
    if ids.len() == 0 {
        Seq::empty()
    } else {
        let line = line_of(lanes, ids[0]);
        let n = run_length(spec_length(line), draws);
        run_candidates(line, ids[0], config, draws.take(n)) + spec_place_all(
            lanes,
            ids.drop_first(),
            config,
            draws.skip(n),
        )
    }
}

/// The first stop beyond the sidewalk is the last stop of a complete run,
/// whatever is drawn after the run.
pub proof fn lemma_stop_index(
    length: int,
    config: PlacementConfig,
    run: Seq<i64>,
    more: Seq<i64>,
    k: int,
)
    requires
        complete_run(length, config, run),
        0 <= k <= run_count(run),
    ensures
        stop_index(length, run + more, k) == run_count(run),
    decreases run_count(run) - k,
{
    lemma_position_stable(run, more, k);
    if k < run_count(run) {
        assert(position(run, k) < length);
        lemma_stop_index(length, config, run, more, k + 1);
    }
}

/// Placing along several sidewalks gives, for complete runs drawn one after
/// the other, the houses of each run in turn.
pub proof fn lemma_place_all(
    lanes: Seq<Lane>,
    ids: Seq<LaneID>,
    config: PlacementConfig,
    runs: Seq<Seq<i64>>,
    parts: Seq<Seq<CandidateView>>,
)
    requires
        runs.len() == ids.len(),
        parts.len() == ids.len(),
        forall|j: int|
            0 <= j < ids.len() ==> complete_run(
                spec_length(line_of(lanes, ids[j])),
                config,
                #[trigger] runs[j],
            ),
        forall|j: int|
            0 <= j < ids.len() ==> #[trigger] parts[j] == run_candidates(
                line_of(lanes, ids[j]),
                ids[j],
                config,
                runs[j],
            ),
    ensures
        spec_place_all(lanes, ids, config, runs.flatten()) == parts.flatten(),
    decreases ids.len(),
{
    if ids.len() > 0 {
        let line = line_of(lanes, ids[0]);
        let run = runs[0];
        let more = runs.drop_first().flatten();
        let draws = runs.flatten();
        assert(draws == run + more);
        assert(complete_run(spec_length(line), config, runs[0]));
        lemma_stop_index(spec_length(line), config, run, more, 0);
        assert(run_length(spec_length(line), draws) == run.len());
        assert(draws.take(run.len() as int) =~= run);
        assert(draws.skip(run.len() as int) =~= more);
        assert forall|j: int| 0 <= j < ids.drop_first().len() implies complete_run(
            spec_length(line_of(lanes, ids.drop_first()[j])),
            config,
            #[trigger] runs.drop_first()[j],
        ) by {
            assert(runs.drop_first()[j] == runs[j + 1]);
            assert(ids.drop_first()[j] == ids[j + 1]);
        }
        assert forall|j: int| 0 <= j < ids.drop_first().len() implies #[trigger] parts.drop_first()[j]
            == run_candidates(
            line_of(lanes, ids.drop_first()[j]),
            ids.drop_first()[j],
            config,
            runs.drop_first()[j],
        ) by {
            assert(parts.drop_first()[j] == parts[j + 1]);
            assert(runs.drop_first()[j] == runs[j + 1]);
            assert(ids.drop_first()[j] == ids[j + 1]);
        }
        lemma_place_all(lanes, ids.drop_first(), config, runs.drop_first(), parts.drop_first());
        assert(parts.flatten() == parts[0] + parts.drop_first().flatten());
    } else {
        assert(parts.flatten() =~= Seq::<CandidateView>::empty());
    }
}

/// Every house placed stands along one of the sidewalks given.
pub proof fn lemma_place_all_lanes(
    lanes: Seq<Lane>,
    ids: Seq<LaneID>,
    config: PlacementConfig,
    draws: Seq<i64>,
)
    ensures
        forall|k: int|
            0 <= k < spec_place_all(lanes, ids, config, draws).len() ==> ids.contains(
                (#[trigger] spec_place_all(lanes, ids, config, draws)[k]).lane,
            ),
    decreases ids.len(),
{
    if ids.len() > 0 {
        let line = line_of(lanes, ids[0]);
        let n = run_length(spec_length(line), draws);
        let first = run_candidates(line, ids[0], config, draws.take(n));
        let rest = spec_place_all(lanes, ids.drop_first(), config, draws.skip(n));
        lemma_place_all_lanes(lanes, ids.drop_first(), config, draws.skip(n));
        let all = spec_place_all(lanes, ids, config, draws);
        assert forall|k: int| 0 <= k < all.len() implies ids.contains((#[trigger] all[k]).lane) by {
            if k < first.len() {
                assert(all[k] == first[k]);
                assert(ids[0] == all[k].lane);
            } else {
                assert(all[k] == rest[k - first.len()]);
                let j = choose|j: int|
                    0 <= j < ids.drop_first().len() && ids.drop_first()[j] == all[k].lane;
                assert(ids[j + 1] == all[k].lane);
            }
        }
    }
}

/// The views of two sequences of candidates, one after the other.
pub proof fn lemma_views_concat(a: Seq<Candidate>, b: Seq<Candidate>)
    ensures
        candidate_views(a + b) == candidate_views(a) + candidate_views(b),
{
    assert(candidate_views(a + b) =~= candidate_views(a) + candidate_views(b));
}

/// The stops of a run do not depend on what is drawn after them.
pub proof fn lemma_position_stable(run: Seq<i64>, more: Seq<i64>, k: int)
    requires
        0 <= k,
        3 * k < run.len(),
    ensures
        position(run + more, k) == position(run, k),
    decreases k,
{
    if k > 0 {
        lemma_position_stable(run, more, k - 1);
        assert(width_of(run + more, k - 1) == width_of(run, k - 1));
        assert(height_of(run + more, k - 1) == height_of(run, k - 1));
        assert(gap_of(run + more, k - 1) == gap_of(run, k - 1));
    } else {
        assert((run + more)[0] == run[0]);
    }
}

/// Walks along `lane` and makes a house at each stop. The houses are those
/// of the run that was drawn, and the run is complete. Invalid settings are
/// refused with `InvalidRange` before anything is drawn; nothing else fails.
pub fn place_along_sidewalk(lane: &Lane, rng: &mut RandomStream, config: &PlacementConfig) -> (r:
    Result<Vec<Candidate>, ProcgenError>)
    ensures
        r.is_ok() <==> config.valid(),
        r matches Err(e) ==> e == ProcgenError::InvalidRange && final(rng)@ == old(rng)@,
        r matches Ok(houses) ==> {
            let run = drawn_since(old(rng)@, final(rng)@);
            &&& final(rng)@ == old(rng)@ + run
            &&& complete_run(spec_length(lane.lane_center_pts@), *config, run)
            &&& candidate_views(houses@) == run_candidates(
                lane.lane_center_pts@,
                lane.id,
                *config,
                run,
            )
            &&& spec_length(lane.lane_center_pts@) <= config.first_offset.low ==> houses@.len()
                == 0
            &&& spec_length(lane.lane_center_pts@) >= config.first_offset.high ==> houses@.len()
                >= 1
            &&& forall|k: int|
                0 <= k < houses@.len() ==> {
                    let house = #[trigger] houses@[k]@;
                    &&& house.lane == lane.id
                    &&& 0 <= house.dist_along < spec_length(lane.lane_center_pts@)
                    &&& config.size.holds(house.width as int)
                    &&& config.size.holds(house.height as int)
                    &&& house == spec_candidate(
                        lane.lane_center_pts@,
                        lane.id,
                        config.base_setback as int,
                        house.dist_along as int,
                        house.width as int,
                        house.height as int,
                    )
                }
        },
{
    if !config.is_valid() {
        return Err(ProcgenError::InvalidRange);
    }
    let length: i64 = lane.lane_center_pts.length();
    let ghost line = lane.lane_center_pts@;
    let ghost before = rng@;
    let first: i64 = match rand_dist(rng, config.first_offset.low, config.first_offset.high) {
        Ok(first) => first,
        Err(e) => {
            return Err(e);
        },
    };
    let ghost mut run: Seq<i64> = seq![first];
    let mut dist_along: i64 = first;
    let mut houses: Vec<Candidate> = Vec::new();
    proof {
        assert(rng@ =~= before + run);
        assert(candidate_views(houses@) =~= run_candidates(line, lane.id, *config, run));
    }
    while dist_along < length
        invariant
            config.valid(),
            line == lane.lane_center_pts@,
            length == spec_length(line),
            1 <= length <= MAX_LINE_LENGTH,
            rng@ == before + run,
            run.len() == 3 * houses@.len() + 1,
            run_count(run) == houses@.len(),
            draws_in_range(*config, run),
            forall|k: int| 0 <= k < houses@.len() ==> 0 <= #[trigger] position(run, k) < length,
            dist_along == position(run, houses@.len() as int),
            0 <= dist_along <= MAX_LINE_LENGTH + 0x8000_0000,
            candidate_views(houses@) == run_candidates(line, lane.id, *config, run),
        decreases left_to_walk(length as int, dist_along as int),
    {
        let ghost n = houses@.len() as int;
        let ghost old_run = run;
        let ghost old_houses = houses@;
        let width: i64 = rng.gen_range(config.size.low, config.size.high);
        let height: i64 = rng.gen_range(config.size.low, config.size.high);
        let house: Candidate = match make_candidate(
            lane,
            dist_along,
            width,
            height,
            config.base_setback,
        ) {
            Ok(house) => house,
            Err(e) => {
                return Err(e);
            },
        };
        houses.push(house);
        let gap: i64 = match rand_dist(rng, config.gap.low, config.gap.high) {
            Ok(gap) => gap,
            Err(e) => {
                return Err(e);
            },
        };
        let side: i64 = if width >= height { width } else { height };
        dist_along = dist_along + side + gap;
        proof {
            let more = seq![width, height, gap];
            run = old_run + more;
            assert(rng@ =~= before + run);
            assert(run_count(run) == n + 1);
            assert(width_of(run, n) == width);
            assert(height_of(run, n) == height);
            assert(gap_of(run, n) == gap);
            assert forall|k: int| 0 <= k <= n implies position(run, k) == position(old_run, k) by {
                lemma_position_stable(old_run, more, k);
            }
            assert forall|k: int| 0 <= k < n implies width_of(run, k) == width_of(old_run, k)
                && height_of(run, k) == height_of(old_run, k) && gap_of(run, k) == gap_of(
                old_run,
                k,
            ) by {}
            assert forall|k: int| 0 <= k < run_count(run) implies config.size.holds(
                #[trigger] width_of(run, k),
            ) && config.size.holds(height_of(run, k)) && config.gap.holds(gap_of(run, k)) by {
                if k < n {
                    assert(config.size.holds(width_of(old_run, k)));
                }
            }
            assert(run[0] == old_run[0]);
            assert forall|k: int| 0 <= k < n + 1 implies 0 <= #[trigger] position(run, k)
                < length by {
                if k < n {
                    assert(0 <= position(old_run, k) < length);
                }
            }
            let wanted = run_candidates(line, lane.id, *config, run);
            let got = candidate_views(houses@);
            assert(got.len() == wanted.len());
            assert forall|k: int| 0 <= k < got.len() implies got[k] == wanted[k] by {
                if k < n {
                    assert(got[k] == candidate_views(old_houses)[k]);
                    assert(candidate_views(old_houses)[k] == run_candidates(
                        line,
                        lane.id,
                        *config,
                        old_run,
                    )[k]);
                }
            }
            assert(got =~= wanted);
        }
    }
    proof {
        assert(drawn_since(before, rng@) =~= run);
        assert(position(run, 0) == run[0]);
        if houses@.len() >= 1 {
            assert(0 <= position(run, 0) < length);
        }
        assert forall|k: int| 0 <= k < houses@.len() implies {
            let house = #[trigger] houses@[k]@;
            &&& house.lane == lane.id
            &&& 0 <= house.dist_along < spec_length(line)
            &&& config.size.holds(house.width as int)
            &&& config.size.holds(house.height as int)
            &&& house == spec_candidate(
                line,
                lane.id,
                config.base_setback as int,
                house.dist_along as int,
                house.width as int,
                house.height as int,
            )
        } by {
            assert(houses@[k]@ == candidate_views(houses@)[k]);
            assert(0 <= position(run, k) < length);
            assert(config.size.holds(width_of(run, k)));
        }
    }
    Ok(houses)
}

/// Walks along each of the sidewalks `sidewalks` in turn and pools the
/// houses. Invalid settings are refused with `InvalidRange` before anything
/// is drawn; nothing else fails.
pub fn place_candidates(
    network: &RoadNetwork,
    sidewalks: &Vec<LaneID>,
    rng: &mut RandomStream,
    config: &PlacementConfig,
) -> (r: Result<Vec<Candidate>, ProcgenError>)
    requires
        forall|i: int|
            0 <= i < sidewalks@.len() ==> (#[trigger] sidewalks@[i]).0 < network.spec_lanes().len(),
    ensures
        r.is_ok() <==> config.valid(),
        r matches Err(e) ==> e == ProcgenError::InvalidRange && final(rng)@ == old(rng)@,
        r matches Ok(houses) ==> {
            let draws = drawn_since(old(rng)@, final(rng)@);
            &&& final(rng)@ == old(rng)@ + draws
            &&& candidate_views(houses@) == spec_place_all(
                network.spec_lanes(),
                sidewalks@,
                *config,
                draws,
            )
            &&& forall|k: int|
                0 <= k < houses@.len() ==> sidewalks@.contains((#[trigger] houses@[k]@).lane)
                    && placed_on(
                    network.spec_lanes(),
                    config.size,
                    config.base_setback as int,
                    houses@[k]@,
                )
            &&& some_at_least(network.spec_lanes(), sidewalks@, config.first_offset.high as int)
                ==> houses@.len() >= 1
            &&& all_at_most(network.spec_lanes(), sidewalks@, config.first_offset.low as int)
                ==> houses@.len() == 0
        },
{
    if !config.is_valid() {
        return Err(ProcgenError::InvalidRange);
    }
    let ghost lanes = network.spec_lanes();
    let ghost before = rng@;
    let ghost mut runs: Seq<Seq<i64>> = Seq::empty();
    let ghost mut parts: Seq<Seq<CandidateView>> = Seq::empty();
    let mut houses: Vec<Candidate> = Vec::new();
    let mut i: usize = 0;
    proof {
        assert(runs.flatten() =~= Seq::<i64>::empty());
        assert(parts.flatten() =~= Seq::<CandidateView>::empty());
        assert(rng@ =~= before + runs.flatten());
        assert(candidate_views(houses@) =~= parts.flatten());
    }
    while i < sidewalks.len()
        invariant
            0 <= i <= sidewalks.len(),
            config.valid(),
            lanes == network.spec_lanes(),
            forall|k: int|
                0 <= k < sidewalks@.len() ==> (#[trigger] sidewalks@[k]).0 < lanes.len(),
            runs.len() == i,
            parts.len() == i,
            rng@ == before + runs.flatten(),
            candidate_views(houses@) == parts.flatten(),
            forall|k: int|
                0 <= k < houses@.len() ==> sidewalks@.contains((#[trigger] houses@[k]@).lane)
                    && placed_on(lanes, config.size, config.base_setback as int, houses@[k]@),
            some_at_least(lanes, sidewalks@.take(i as int), config.first_offset.high as int)
                ==> houses@.len() >= 1,
            all_at_most(lanes, sidewalks@.take(i as int), config.first_offset.low as int)
                ==> houses@.len() == 0,
            forall|j: int|
                0 <= j < i ==> complete_run(
                    spec_length(line_of(lanes, sidewalks@[j])),
                    *config,
                    #[trigger] runs[j],
                ),
            forall|j: int|
                0 <= j < i ==> #[trigger] parts[j] == run_candidates(
                    line_of(lanes, sidewalks@[j]),
                    sidewalks@[j],
                    *config,
                    runs[j],
                ),
        decreases sidewalks.len() - i,
    {
        let lane: &Lane = network.get_l(sidewalks[i]);
        let ghost at_lane = rng@;
        let ghost old_houses = houses@;
        let mut placed: Vec<Candidate> = match place_along_sidewalk(lane, rng, config) {
            Ok(placed) => placed,
            Err(e) => {
                return Err(e);
            },
        };
        proof {
            let run = drawn_since(at_lane, rng@);
            let part = candidate_views(placed@);
            runs.lemma_flatten_push(run);
            parts.lemma_flatten_push(part);
            lemma_views_concat(old_houses, placed@);
            assert(rng@ =~= before + runs.push(run).flatten());
            runs = runs.push(run);
            parts = parts.push(part);
        }
        let ghost newly = placed@;
        houses.append(&mut placed);
        proof {
            assert(houses@ == old_houses + newly);
            let high = config.first_offset.high as int;
            let low = config.first_offset.low as int;
            let before_ids = sidewalks@.take(i as int);
            let now_ids = sidewalks@.take(i + 1);
            if some_at_least(lanes, now_ids, high) {
                let j = choose|j: int|
                    0 <= j < now_ids.len() && spec_length(line_of(lanes, #[trigger] now_ids[j]))
                        >= high;
                if j < i {
                    assert(before_ids[j] == now_ids[j]);
                    assert(some_at_least(lanes, before_ids, high));
                } else {
                    assert(now_ids[j] == sidewalks@[i as int]);
                }
            }
            if all_at_most(lanes, now_ids, low) {
                assert forall|j: int| 0 <= j < before_ids.len() implies spec_length(
                    line_of(lanes, #[trigger] before_ids[j]),
                ) <= low by {
                    assert(before_ids[j] == now_ids[j]);
                }
                assert(now_ids[i as int] == sidewalks@[i as int]);
                assert(spec_length(line_of(lanes, now_ids[i as int])) <= low);
            }
            assert forall|k: int| 0 <= k < houses@.len() implies sidewalks@.contains(
                (#[trigger] houses@[k]@).lane,
            ) && placed_on(lanes, config.size, config.base_setback as int, houses@[k]@) by {
                if k < old_houses.len() {
                    assert(houses@[k] == old_houses[k]);
                } else {
                    assert(houses@[k] == newly[k - old_houses.len()]);
                    assert(newly[k - old_houses.len()]@.lane == sidewalks@[i as int]);
                }
            }
        }
        i += 1;
    }
    proof {
        assert(sidewalks@.take(i as int) =~= sidewalks@);
        lemma_place_all(lanes, sidewalks@, *config, runs, parts);
        assert(drawn_since(before, rng@) =~= runs.flatten());
    }
    Ok(houses)
}

} // verus!
