//! The road network as placement reads it: roads with their tags, lanes with
//! their center lines, and the buildings that already stand.

use vstd::prelude::*;
use vstd::hash_map::StringHashMap;
use std::collections::HashSet;
use crate::geometry::{Bounds, Pt2D, WORLD_LIMIT};
use crate::polyline::{valid_line, PolyLine};

verus! {

broadcast use vstd::std_specs::hash::group_hash_axioms;

/// The tag key under which a road carries its class.
pub const HIGHWAY: &'static str = "highway";

/// The class of a residential road.
pub const RESIDENTIAL: &'static str = "residential";

#[derive(Clone, Copy, Debug, PartialEq, Eq, Hash, Structural)]
pub struct RoadID(pub usize);

#[derive(Clone, Copy, Debug, PartialEq, Eq, Hash, Structural)]
pub struct LaneID(pub usize);

/// What a lane is for.
#[derive(Clone, Copy, Debug, PartialEq, Eq, Structural)]
pub enum LaneType {
    Driving,
    Parking,
    Sidewalk,
    Biking,
    Bus,
}

/// The tags of a road: at most one value under each key.
pub struct Tags {
    map: StringHashMap<String>,
}

impl View for Tags {
    type V = Map<Seq<char>, Seq<char>>;

    closed spec fn view(&self) -> Map<Seq<char>, Seq<char>> {
        self.map@.map_values(|v: String| v@)
    }
}

impl Tags {
    /// The tags hold `value` under `key`.
    pub open spec fn spec_is(&self, key: Seq<char>, value: Seq<char>) -> bool {
        self@.contains_key(key) && self@[key] == value
    }

    /// No tags.
    pub fn new() -> (tags: Tags)
        ensures
            tags@ == Map::<Seq<char>, Seq<char>>::empty(),
    {
        let tags = Tags { map: StringHashMap::new() };
        assert(tags@ =~= Map::<Seq<char>, Seq<char>>::empty());
        tags
    }

    /// Puts `value` under `key`, in place of what was there.
    pub fn insert(&mut self, key: String, value: String)
        ensures
            final(self)@ == old(self)@.insert(key@, value@),
    {
        self.map.insert(key, value);
        assert(self@ =~= old(self)@.insert(key@, value@));
    }

    /// Tests whether the tags hold `value` under `key`.
    pub fn is(&self, key: &str, value: &str) -> (b: bool)
        ensures
            b == self.spec_is(key@, value@),
    {
        match self.map.get(key) {
            Some(found) => {
                let wanted: String = value.to_owned();
                *found == wanted
            },
            None => false,
        }
    }
}

/// A road.
pub struct Road {
    pub id: RoadID,
    pub osm_tags: Tags,
}

impl Road {
    /// The road is tagged as residential.
    pub open spec fn spec_is_residential(&self) -> bool {
        self.osm_tags.spec_is(HIGHWAY@, RESIDENTIAL@)
    }

    /// Tests whether the road is tagged as residential.
    pub fn is_residential(&self) -> (b: bool)
        ensures
            b == self.spec_is_residential(),
    {
        self.osm_tags.is(HIGHWAY, RESIDENTIAL)
    }
}

/// A lane of a road.
pub struct Lane {
    pub id: LaneID,
    pub parent: RoadID,
    pub lane_type: LaneType,
    pub lane_center_pts: PolyLine,
}

impl Lane {
    pub open spec fn spec_is_sidewalk(&self) -> bool {
        self.lane_type == LaneType::Sidewalk
    }

    /// Tests whether the lane is a sidewalk.
    pub fn is_sidewalk(&self) -> (b: bool)
        ensures
            b == self.spec_is_sidewalk(),
    {
        self.lane_type == LaneType::Sidewalk
    }
}

/// A building that already stands.
#[derive(Clone, Copy, Debug, PartialEq, Eq, Structural)]
pub struct Building {
    /// The sidewalk that the building fronts.
    pub sidewalk: LaneID,
}

impl Building {
    pub fn sidewalk(&self) -> (lane: LaneID)
        ensures
            lane == self.sidewalk,
    {
        self.sidewalk
    }
}

/// Roads and lanes are known by their position: the ids count up from zero,
/// and every lane names a road that exists.
pub open spec fn consistent_ids(roads: Seq<Road>, lanes: Seq<Lane>) -> bool {
    &&& forall|i: int| 0 <= i < roads.len() ==> (#[trigger] roads[i]).id.0 == i
    &&& forall|i: int|
        0 <= i < lanes.len() ==> (#[trigger] lanes[i]).id.0 == i && lanes[i].parent.0 < roads.len()
}

/// Every lane has a valid center line.
pub open spec fn valid_center_lines(lanes: Seq<Lane>) -> bool {
    forall|i: int| 0 <= i < lanes.len() ==> valid_line((#[trigger] lanes[i]).lane_center_pts@)
}

/// Some building fronts `lane`.
pub open spec fn has_building(buildings: Seq<Building>, lane: LaneID) -> bool {
    exists|j: int| 0 <= j < buildings.len() && (#[trigger] buildings[j]).sidewalk == lane
}

/// The lane at position `i` may receive buildings: it is a sidewalk, no
/// building fronts it, and its road is residential.
pub open spec fn eligible(
    roads: Seq<Road>,
    lanes: Seq<Lane>,
    buildings: Seq<Building>,
    i: int,
) -> bool {
    &&& lanes[i].spec_is_sidewalk()
    &&& !has_building(buildings, lanes[i].id)
    &&& roads[lanes[i].parent.0 as int].spec_is_residential()
}

/// The ids of the eligible lanes among the first `k`, in the order of the
/// lanes.
pub open spec fn eligible_upto(
    roads: Seq<Road>,
    lanes: Seq<Lane>,
    buildings: Seq<Building>,
    k: int,
) -> Seq<LaneID>
    decreases k,
{
    if k <= 0 {
        Seq::empty()
    } else {
        let earlier = eligible_upto(roads, lanes, buildings, k - 1);
        if eligible(roads, lanes, buildings, k - 1) {
            earlier.push(lanes[k - 1].id)
        } else {
            earlier
        }
    }
}

/// Every lane found eligible among the first `k` is one of them, and is
/// eligible.
pub proof fn lemma_eligible_upto(
    roads: Seq<Road>,
    lanes: Seq<Lane>,
    buildings: Seq<Building>,
    k: int,
)
    requires
        consistent_ids(roads, lanes),
        0 <= k <= lanes.len(),
    ensures
        forall|j: int|
            0 <= j < eligible_upto(roads, lanes, buildings, k).len() ==> {
                let id = #[trigger] eligible_upto(roads, lanes, buildings, k)[j];
                id.0 < k && eligible(roads, lanes, buildings, id.0 as int)
            },
    decreases k,
{
    if k > 0 {
        lemma_eligible_upto(roads, lanes, buildings, k - 1);
        let earlier = eligible_upto(roads, lanes, buildings, k - 1);
        let all = eligible_upto(roads, lanes, buildings, k);
        assert forall|j: int| 0 <= j < all.len() implies {
            let id = #[trigger] all[j];
            id.0 < k && eligible(roads, lanes, buildings, id.0 as int)
        } by {
            if j < earlier.len() {
                assert(all[j] == earlier[j]);
            } else {
                assert(all[j] == lanes[k - 1].id);
            }
        }
    }
}

/// The smallest box that holds `b` and the first `k` points of `pts`.
pub open spec fn extended_by(b: Bounds, pts: Seq<Pt2D>, k: int) -> Bounds
    decreases k,
{
    if k <= 0 {
        b
    } else {
        extended_by(b, pts, k - 1).spec_extended(pts[k - 1])
    }
}

/// The smallest box that holds the origin and the center lines of the first
/// `k` lanes.
pub open spec fn bounds_upto(lanes: Seq<Lane>, k: int) -> Bounds
    decreases k,
{
    if k <= 0 {
        Bounds::spec_at(Pt2D { x: 0, y: 0 })
    } else {
        let pts = lanes[k - 1].lane_center_pts@;
        extended_by(bounds_upto(lanes, k - 1), pts, pts.len() as int)
    }
}

/// The road network.
pub struct RoadNetwork {
    roads: Vec<Road>,
    lanes: Vec<Lane>,
    buildings: Vec<Building>,
    bounds: Bounds,
}

impl RoadNetwork {
    #[verifier::type_invariant]
    spec fn inv(self) -> bool {
        &&& consistent_ids(self.roads@, self.lanes@)
        &&& valid_center_lines(self.lanes@)
        &&& self.bounds == bounds_upto(self.lanes@, self.lanes@.len() as int)
        &&& self.bounds.wf()
        &&& self.bounds.within(WORLD_LIMIT as int)
    }

    pub closed spec fn spec_roads(&self) -> Seq<Road> {
        self.roads@
    }

    pub closed spec fn spec_lanes(&self) -> Seq<Lane> {
        self.lanes@
    }

    pub closed spec fn spec_buildings(&self) -> Seq<Building> {
        self.buildings@
    }

    /// The ids agree with the positions and the center lines are valid.
    pub open spec fn wf(&self) -> bool {
        &&& consistent_ids(self.spec_roads(), self.spec_lanes())
        &&& valid_center_lines(self.spec_lanes())
    }

    /// The lane `lane` exists and may receive buildings.
    pub open spec fn spec_eligible(&self, lane: LaneID) -> bool {
        &&& lane.0 < self.spec_lanes().len()
        &&& eligible(self.spec_roads(), self.spec_lanes(), self.spec_buildings(), lane.0 as int)
    }

    /// The ids of all eligible lanes, in the order of the lanes.
    pub open spec fn spec_empty_residential_sidewalks(&self) -> Seq<LaneID> {
        eligible_upto(
            self.spec_roads(),
            self.spec_lanes(),
            self.spec_buildings(),
            self.spec_lanes().len() as int,
        )
    }

    /// The network of the given roads, lanes and buildings, or `None` when an id
    /// is not the position of its road or lane, or a lane names a road that
    /// is not there.
    pub fn new(roads: Vec<Road>, lanes: Vec<Lane>, buildings: Vec<Building>) -> (map: Option<RoadNetwork>)
        ensures
            map.is_some() <==> consistent_ids(roads@, lanes@),
            map matches Some(m) ==> m.spec_roads() == roads@ && m.spec_lanes() == lanes@
                && m.spec_buildings() == buildings@ && m.wf(),
    {
        let mut r: usize = 0;
        while r < roads.len()
            invariant
                0 <= r <= roads.len(),
                forall|i: int| 0 <= i < r ==> (#[trigger] roads@[i]).id.0 == i,
            decreases roads.len() - r,
        {
            if roads[r].id.0 != r {
                return None;
            }
            r += 1;
        }
        let mut bounds: Bounds = Bounds::at(Pt2D { x: 0, y: 0 });
        let mut l: usize = 0;
        while l < lanes.len()
            invariant
                0 <= l <= lanes.len(),
                forall|i: int|
                    0 <= i < l ==> (#[trigger] lanes@[i]).id.0 == i && lanes@[i].parent.0
                        < roads.len(),
                forall|i: int| 0 <= i < l ==> valid_line((#[trigger] lanes@[i]).lane_center_pts@),
                bounds == bounds_upto(lanes@, l as int),
                bounds.wf(),
                bounds.within(WORLD_LIMIT as int),
            decreases lanes.len() - l,
        {
            if lanes[l].id.0 != l || lanes[l].parent.0 >= roads.len() {
                return None;
            }
            let pts: &Vec<Pt2D> = lanes[l].lane_center_pts.points();
            let mut k: usize = 0;
            while k < pts.len()
                invariant
                    0 <= k <= pts.len(),
                    valid_line(pts@),
                    bounds == extended_by(bounds_upto(lanes@, l as int), pts@, k as int),
                    bounds.wf(),
                    bounds.within(WORLD_LIMIT as int),
                decreases pts.len() - k,
            {
                assert(pts@[k as int].within(WORLD_LIMIT as int));
                bounds.update(pts[k]);
                k += 1;
            }
            l += 1;
        }
        Some(RoadNetwork { roads, lanes, buildings, bounds })
    }

    /// All lanes, by id.
    pub fn all_lanes(&self) -> (lanes: &Vec<Lane>)
        ensures
            lanes@ == self.spec_lanes(),
            self.wf(),
    {
        proof {
            use_type_invariant(self);
        }
        &self.lanes
    }

    /// All buildings that already stand.
    pub fn all_buildings(&self) -> (buildings: &Vec<Building>)
        ensures
            buildings@ == self.spec_buildings(),
    {
        &self.buildings
    }

    /// The lane with the id `id`.
    pub fn get_l(&self, id: LaneID) -> (lane: &Lane)
        requires
            id.0 < self.spec_lanes().len(),
        ensures
            *lane == self.spec_lanes()[id.0 as int],
            lane.id == id,
            valid_line(lane.lane_center_pts@),
            self.wf(),
    {
        proof {
            use_type_invariant(self);
        }
        &self.lanes[id.0]
    }

    /// The road with the id `id`.
    pub fn get_r(&self, id: RoadID) -> (road: &Road)
        requires
            id.0 < self.spec_roads().len(),
        ensures
            *road == self.spec_roads()[id.0 as int],
            self.wf(),
    {
        proof {
            use_type_invariant(self);
        }
        &self.roads[id.0]
    }

    /// The smallest box that holds the origin and every center line.
    pub fn get_bounds(&self) -> (b: Bounds)
        ensures
            b == bounds_upto(self.spec_lanes(), self.spec_lanes().len() as int),
            b.wf(),
            b.within(WORLD_LIMIT as int),
    {
        proof {
            use_type_invariant(self);
        }
        self.bounds
    }

    /// Finds the sidewalks of residential roads that no building fronts.
    pub fn empty_residential_sidewalks(&self) -> (found: Vec<LaneID>)
        ensures
            found@ == self.spec_empty_residential_sidewalks(),
            forall|i: int| 0 <= i < found@.len() ==> self.spec_eligible(#[trigger] found@[i]),
            self.wf(),
    {
        proof {
            use_type_invariant(self);
            lemma_eligible_upto(
                self.roads@,
                self.lanes@,
                self.buildings@,
                self.lanes@.len() as int,
            );
        }
        let mut lanes_with_buildings: HashSet<usize> = HashSet::new();
        let mut j: usize = 0;
        while j < self.buildings.len()
            invariant
                0 <= j <= self.buildings.len(),
                forall|id: usize|
                    lanes_with_buildings@.contains(id) <==> exists|k: int|
                        0 <= k < j && (#[trigger] self.buildings@[k]).sidewalk == LaneID(id),
            decreases self.buildings.len() - j,
        {
            lanes_with_buildings.insert(self.buildings[j].sidewalk().0);
            j += 1;
        }
        let mut found: Vec<LaneID> = Vec::new();
        let mut i: usize = 0;
        while i < self.lanes.len()
            invariant
                0 <= i <= self.lanes.len(),
                consistent_ids(self.roads@, self.lanes@),
                forall|id: usize|
                    lanes_with_buildings@.contains(id) <==> has_building(
                        self.buildings@,
                        LaneID(id),
                    ),
                found@ == eligible_upto(self.roads@, self.lanes@, self.buildings@, i as int),
            decreases self.lanes.len() - i,
        {
            let l: &Lane = &self.lanes[i];
            if l.is_sidewalk() && !lanes_with_buildings.contains(&l.id.0) && self.roads[l.parent.0].is_residential() {
                found.push(l.id);
            }
            i += 1;
        }
        found
    }
}

} // verus!
