use building_procgen::basemap::{Basemap, Obstacle};
use building_procgen::building_procgen::{
    generate_buildings_on_empty_residential_roads, BuildingProceduralGenerator,
};
use building_procgen::candidate::{make_candidate, Candidate};
use building_procgen::config::{DistRange, PlacementConfig};
use building_procgen::error::ProcgenError;
use building_procgen::filter::prune_houses_on_basemap;
use building_procgen::geometry::{Bounds, Pt2D, UNITS_PER_METER};
use building_procgen::network::{Lane, LaneID, LaneType, Road, RoadID, RoadNetwork, Tags};
use building_procgen::placer::{place_along_sidewalk, place_candidates};
use building_procgen::polygon::Polygon;
use building_procgen::polyline::PolyLine;
use building_procgen::pruner::prune_overlapping_houses;
use building_procgen::random::{rand_dist, RandomStream};

const M: i64 = UNITS_PER_METER;

fn pt(x: i64, y: i64) -> Pt2D {
    Pt2D::new(x, y)
}

fn road(id: usize, highway: &str) -> Road {
    let mut tags = Tags::new();
    tags.insert("highway".to_string(), highway.to_string());
    Road { id: RoadID(id), osm_tags: tags }
}

fn lane(id: usize, parent: usize, lane_type: LaneType, pts: Vec<Pt2D>) -> Lane {
    Lane {
        id: LaneID(id),
        parent: RoadID(parent),
        lane_type,
        lane_center_pts: PolyLine::new(pts).unwrap(),
    }
}

fn straight_sidewalk(length: i64) -> RoadNetwork {
    RoadNetwork::new(
        vec![road(0, "residential")],
        vec![lane(0, 0, LaneType::Sidewalk, vec![pt(0, 0), pt(length, 0)])],
        vec![],
    )
    .unwrap()
}

fn rect(x: i64, y: i64, w: i64, h: i64) -> Polygon {
    Polygon::new(vec![pt(x, y), pt(x + w, y), pt(x + w, y + h), pt(x, y + h)]).unwrap()
}

fn house(id: i64, x: i64, y: i64, w: i64, h: i64) -> Candidate {
    Candidate { lane: LaneID(0), dist_along: id, width: w, height: h, polygon: rect(x, y, w, h) }
}

fn corners(houses: &Vec<Candidate>) -> Vec<Vec<Pt2D>> {
    houses.iter().map(|h| h.polygon.points().clone()).collect()
}

#[test]
fn default_config_holds_the_usual_numbers() {
    let c = PlacementConfig::default();
    assert!(c.is_valid());
    assert_eq!(c.first_offset, DistRange { low: M, high: 5 * M });
    assert_eq!(c.size, DistRange { low: 6 * M, high: 14 * M });
    assert_eq!(c.gap, DistRange { low: 2 * M, high: 4 * M });
    assert_eq!(c.base_setback, 10 * M);
    assert_eq!(c.overlap_buffer, M);
}

#[test]
fn config_with_an_empty_range_is_invalid() {
    let mut c = PlacementConfig::default();
    c.size = DistRange { low: 5, high: 5 };
    assert!(!c.is_valid());
    let mut c = PlacementConfig::default();
    c.gap = DistRange { low: 9, high: 3 };
    assert!(!c.is_valid());
    let mut c = PlacementConfig::default();
    c.first_offset = DistRange { low: -1, high: 3 };
    assert!(!c.is_valid());
    let mut c = PlacementConfig::default();
    c.size = DistRange { low: 0, high: 3 };
    assert!(!c.is_valid());
    let mut c = PlacementConfig::default();
    c.base_setback = -1;
    assert!(!c.is_valid());
    let mut c = PlacementConfig::default();
    c.overlap_buffer = i64::MAX;
    assert!(!c.is_valid());
}

#[test]
fn rand_dist_refuses_an_empty_range() {
    let mut rng = RandomStream::seeded(1);
    assert_eq!(rand_dist(&mut rng, 5, 5), Err(ProcgenError::InvalidRange));
    assert_eq!(rand_dist(&mut rng, 6, 5), Err(ProcgenError::InvalidRange));
}

#[test]
fn rand_dist_stays_in_range_and_varies() {
    let mut rng = RandomStream::seeded(42);
    let mut seen = std::collections::BTreeSet::new();
    for _ in 0..500 {
        let v = rand_dist(&mut rng, 10_000, 50_000).unwrap();
        assert!(10_000 <= v && v < 50_000);
        seen.insert(v);
    }
    assert!(seen.len() > 100);
    let mut one = RandomStream::seeded(3);
    for _ in 0..20 {
        assert_eq!(one.gen_range(7, 8), 7);
    }
}

#[test]
fn same_seed_gives_same_draws() {
    let mut a = RandomStream::seeded(99);
    let mut b = RandomStream::seeded(99);
    let mut c = RandomStream::seeded(100);
    let mut differs = false;
    for _ in 0..100 {
        let x = a.gen_range(0, 1_000_000);
        assert_eq!(x, b.gen_range(0, 1_000_000));
        if x != c.gen_range(0, 1_000_000) {
            differs = true;
        }
    }
    assert!(differs);
}

#[test]
fn candidate_stands_back_from_the_sidewalk() {
    let l = lane(0, 0, LaneType::Sidewalk, vec![pt(0, 0), pt(100 * M, 0)]);
    let c = make_candidate(&l, 20 * M, 8 * M, 6 * M, 10 * M).unwrap();
    assert_eq!(c.lane, LaneID(0));
    assert_eq!((c.dist_along, c.width, c.height), (20 * M, 8 * M, 6 * M));
    // Along +x the side away from the road is -y. The center is 13 m away,
    // the front edge 10 m, the back edge 16 m.
    assert_eq!(
        c.polygon.points(),
        &vec![pt(16 * M, -16 * M), pt(24 * M, -16 * M), pt(24 * M, -10 * M), pt(16 * M, -10 * M)]
    );
    assert_eq!(
        make_candidate(&l, 100 * M + 1, 8 * M, 6 * M, 10 * M).unwrap_err(),
        ProcgenError::MalformedGeometry
    );
    assert_eq!(
        make_candidate(&l, -1, 8 * M, 6 * M, 10 * M).unwrap_err(),
        ProcgenError::MalformedGeometry
    );
}

#[test]
fn candidate_on_a_slanted_sidewalk() {
    let l = lane(0, 0, LaneType::Sidewalk, vec![pt(0, 0), pt(30 * M, 40 * M)]);
    let c = make_candidate(&l, 25 * M, 10 * M, 10 * M, 10 * M).unwrap();
    // The sidewalk point is (15, 20) m; away is (4, -3) / 5; the center is 15 m away.
    let (cx, cy) = (15 * M + 12 * M, 20 * M - 9 * M);
    // Half the width along (3, 4) / 5 is (3, 4) m; half the height away is (4, -3) m.
    assert_eq!(
        c.polygon.points(),
        &vec![
            pt(cx - 3 * M + 4 * M, cy - 4 * M - 3 * M),
            pt(cx + 3 * M + 4 * M, cy + 4 * M - 3 * M),
            pt(cx + 3 * M - 4 * M, cy + 4 * M + 3 * M),
            pt(cx - 3 * M - 4 * M, cy - 4 * M + 3 * M),
        ]
    );
}

#[test]
fn placement_walks_the_whole_sidewalk() {
    let l = lane(0, 0, LaneType::Sidewalk, vec![pt(0, 0), pt(100 * M, 0)]);
    let config = PlacementConfig::default();
    let mut rng = RandomStream::seeded(7);
    let houses = place_along_sidewalk(&l, &mut rng, &config).unwrap();
    // Each step is less than 14 + 4 meters and at least 6 + 2.
    assert!(houses.len() >= 5 && houses.len() <= 13);
    assert!(houses[0].dist_along >= M && houses[0].dist_along < 5 * M);
    for k in 0..houses.len() {
        let h = &houses[k];
        assert_eq!(h.lane, LaneID(0));
        assert!(h.dist_along < 100 * M);
        assert!(6 * M <= h.width && h.width < 14 * M);
        assert!(6 * M <= h.height && h.height < 14 * M);
        if k + 1 < houses.len() {
            let step = houses[k + 1].dist_along - h.dist_along;
            let side = h.width.max(h.height);
            assert!(side + 2 * M <= step && step < side + 4 * M);
        } else {
            assert!(h.dist_along + h.width.max(h.height) + 4 * M > 100 * M);
        }
    }
}

// A sidewalk shorter than the smallest first offset gets no house.
#[test]
fn short_sidewalk_gets_no_house() {
    let l = lane(0, 0, LaneType::Sidewalk, vec![pt(0, 0), pt(M / 2, 0)]);
    let config = PlacementConfig::default();
    for seed in 0..50 {
        let mut rng = RandomStream::seeded(seed);
        assert_eq!(place_along_sidewalk(&l, &mut rng, &config).unwrap().len(), 0);
    }
    let network = straight_sidewalk(M / 2);
    let basemap = Basemap::new(vec![]);
    let mut rng = RandomStream::seeded(5);
    let houses =
        generate_buildings_on_empty_residential_roads(&network, &basemap, &mut rng, &config)
            .unwrap();
    assert!(houses.is_empty());
}

#[test]
fn placement_refuses_invalid_settings() {
    let l = lane(0, 0, LaneType::Sidewalk, vec![pt(0, 0), pt(100 * M, 0)]);
    let mut config = PlacementConfig::default();
    config.gap = DistRange { low: 4 * M, high: 2 * M };
    let mut rng = RandomStream::seeded(7);
    assert_eq!(
        place_along_sidewalk(&l, &mut rng, &config).unwrap_err(),
        ProcgenError::InvalidRange
    );
    let network = straight_sidewalk(100 * M);
    assert_eq!(
        place_candidates(&network, &vec![LaneID(0)], &mut rng, &config).unwrap_err(),
        ProcgenError::InvalidRange
    );
    let basemap = Basemap::new(vec![]);
    assert_eq!(
        generate_buildings_on_empty_residential_roads(&network, &basemap, &mut rng, &config)
            .unwrap_err(),
        ProcgenError::InvalidRange
    );
    assert!(BuildingProceduralGenerator::new(&network, &basemap, &mut rng, &config).is_err());
    // Nothing was drawn: the stream is where a fresh one is.
    let mut fresh = RandomStream::seeded(7);
    assert_eq!(rng.gen_range(0, 1_000_000), fresh.gen_range(0, 1_000_000));
}

// One straight sidewalk of 100 meters, a residential road, no buildings and
// no obstacles: at least one house, no two overlapping, every front edge
// exactly the setback away.
#[test]
fn straight_sidewalk_gets_houses_set_back_by_the_base() {
    let network = straight_sidewalk(100 * M);
    let basemap = Basemap::new(vec![]);
    let config = PlacementConfig::default();
    for seed in 0..20 {
        let mut rng = RandomStream::seeded(seed);
        let houses =
            generate_buildings_on_empty_residential_roads(&network, &basemap, &mut rng, &config)
                .unwrap();
        assert!(!houses.is_empty());
        for (i, h) in houses.iter().enumerate() {
            let p = h.polygon.points();
            assert_eq!(p.len(), 4);
            // The front edge is the one between the last two corners.
            assert_eq!(p[2].y, -10 * M);
            assert_eq!(p[3].y, -10 * M);
            // Half a side is rounded toward zero, so a side of odd length
            // comes out one unit short.
            assert_eq!(p[0].y, -10 * M - 2 * (h.height / 2));
            assert_eq!(p[1].y, -10 * M - 2 * (h.height / 2));
            assert_eq!(p[1].x - p[0].x, 2 * (h.width / 2));
            for other in houses.iter().skip(i + 1) {
                assert!(!h.polygon.intersects(&other.polygon));
            }
        }
    }
}

#[test]
fn same_seed_gives_the_same_houses() {
    let network = RoadNetwork::new(
        vec![road(0, "residential"), road(1, "residential")],
        vec![
            lane(0, 0, LaneType::Sidewalk, vec![pt(0, 0), pt(80 * M, 0), pt(80 * M, 90 * M)]),
            lane(1, 1, LaneType::Sidewalk, vec![pt(0, 30 * M), pt(70 * M, 100 * M)]),
        ],
        vec![],
    )
    .unwrap();
    let basemap = Basemap::new(vec![Obstacle::Area(rect(20 * M, -30 * M, 20 * M, 40 * M))]);
    let config = PlacementConfig::default();
    let mut a = RandomStream::seeded(2024);
    let mut b = RandomStream::seeded(2024);
    let first =
        generate_buildings_on_empty_residential_roads(&network, &basemap, &mut a, &config).unwrap();
    let second =
        generate_buildings_on_empty_residential_roads(&network, &basemap, &mut b, &config).unwrap();
    assert!(!first.is_empty());
    assert_eq!(corners(&first), corners(&second));
    let mut c = RandomStream::seeded(2025);
    let third =
        generate_buildings_on_empty_residential_roads(&network, &basemap, &mut c, &config).unwrap();
    assert_ne!(corners(&first), corners(&third));
}

// Of two houses that overlap, the one placed first stays.
#[test]
fn pruning_keeps_the_earlier_of_two_overlapping_houses() {
    let frame = Bounds { min_x: 0, min_y: 0, max_x: 100 * M, max_y: 100 * M };
    let houses = vec![house(1, 0, 0, 10 * M, 10 * M), house(2, 5 * M, 5 * M, 10 * M, 10 * M)];
    let kept = prune_overlapping_houses(houses, &frame, M);
    assert_eq!(kept.len(), 1);
    assert_eq!(kept[0].dist_along, 1);
    let houses = vec![house(2, 5 * M, 5 * M, 10 * M, 10 * M), house(1, 0, 0, 10 * M, 10 * M)];
    let kept = prune_overlapping_houses(houses, &frame, M);
    assert_eq!(kept.len(), 1);
    assert_eq!(kept[0].dist_along, 2);
}

#[test]
fn pruning_compares_with_houses_that_stayed_only() {
    let frame = Bounds { min_x: 0, min_y: 0, max_x: 100 * M, max_y: 100 * M };
    // The second overlaps the first and goes; the third overlaps only the
    // second and stays; the fourth is near the first, inside the buffer, but
    // does not touch it.
    let houses = vec![
        house(1, 0, 0, 10 * M, 10 * M),
        house(2, 8 * M, 0, 10 * M, 10 * M),
        house(3, 16 * M, 0, 10 * M, 10 * M),
        house(4, 0, 10 * M + 1, 10 * M, 10 * M),
        house(5, 0, 20 * M, 10 * M, 10 * M),
    ];
    let kept = prune_overlapping_houses(houses, &frame, M);
    let ids: Vec<i64> = kept.iter().map(|h| h.dist_along).collect();
    assert_eq!(ids, vec![1, 3, 4]);
    assert!(prune_overlapping_houses(vec![], &frame, M).is_empty());
}

#[test]
fn pruning_many_houses_agrees_with_a_full_scan() {
    let frame = Bounds { min_x: 0, min_y: 0, max_x: 1000 * M, max_y: 1000 * M };
    let mut rng = RandomStream::seeded(11);
    let mut houses = Vec::new();
    let mut shapes = Vec::new();
    for k in 0..1500 {
        let x = rng.gen_range(0, 1000 * M);
        let y = rng.gen_range(0, 1000 * M);
        let w = rng.gen_range(6 * M, 14 * M);
        let h = rng.gen_range(6 * M, 14 * M);
        houses.push(house(k, x, y, w, h));
        shapes.push((k, rect(x, y, w, h)));
    }
    let mut expected: Vec<(i64, Polygon)> = Vec::new();
    for (k, shape) in shapes {
        if !expected.iter().any(|(_, kept)| shape.intersects(kept)) {
            expected.push((k, shape));
        }
    }
    let kept = prune_overlapping_houses(houses, &frame, M);
    let got: Vec<i64> = kept.iter().map(|h| h.dist_along).collect();
    let want: Vec<i64> = expected.iter().map(|(k, _)| *k).collect();
    assert!(want.len() < 1500);
    assert_eq!(got, want);
}

#[test]
fn houses_with_a_corner_in_an_obstacle_go() {
    let park = Obstacle::Area(rect(0, 0, 50 * M, 50 * M));
    let basemap = Basemap::new(vec![park]);
    let houses = vec![
        house(1, 45 * M, 45 * M, 10 * M, 10 * M),
        house(2, 60 * M, 60 * M, 10 * M, 10 * M),
        house(3, 20 * M, 20 * M, 10 * M, 10 * M),
        // Covers the whole park: boxes meet, but no corner of the house is inside.
        house(4, -10 * M, -10 * M, 70 * M, 70 * M),
    ];
    let kept = prune_houses_on_basemap(houses, &basemap);
    let ids: Vec<i64> = kept.iter().map(|h| h.dist_along).collect();
    assert_eq!(ids, vec![2, 4]);
}

#[test]
fn outline_obstacle_is_hollow() {
    let ring = Obstacle::Outline {
        outer: rect(0, 0, 100 * M, 100 * M),
        inner: rect(5 * M, 5 * M, 90 * M, 90 * M),
    };
    assert!(ring.contains_pt(pt(2 * M, 50 * M)));
    assert!(!ring.contains_pt(pt(50 * M, 50 * M)));
    assert!(!ring.contains_pt(pt(-1, 50 * M)));
    assert_eq!(ring.get_bounds(), Bounds { min_x: 0, min_y: 0, max_x: 100 * M, max_y: 100 * M });
    let basemap = Basemap::new(vec![ring]);
    assert_eq!(basemap.len(), 1);
    let houses = vec![
        house(1, 40 * M, 40 * M, 10 * M, 10 * M),
        house(2, M, 40 * M, 10 * M, 10 * M),
        house(3, 200 * M, 40 * M, 10 * M, 10 * M),
    ];
    let kept = prune_houses_on_basemap(houses, &basemap);
    let ids: Vec<i64> = kept.iter().map(|h| h.dist_along).collect();
    assert_eq!(ids, vec![1, 3]);
}

#[test]
fn basemap_finds_obstacles_by_box() {
    let mut obstacles = Vec::new();
    for k in 0..100i64 {
        obstacles.push(Obstacle::Area(rect(k * 10 * M, 0, 5 * M, 5 * M)));
    }
    let basemap = Basemap::new(obstacles);
    assert_eq!(basemap.len(), 100);
    let q = Bounds { min_x: 33 * M, min_y: M, max_x: 52 * M, max_y: 2 * M };
    assert_eq!(basemap.get_renderables_back_to_front(&q), vec![3, 4, 5]);
    assert_eq!(basemap.get(4).get_bounds().min_x, 40 * M);
    let none = Bounds { min_x: 6 * M, min_y: M, max_x: 9 * M, max_y: 2 * M };
    assert!(basemap.get_renderables_back_to_front(&none).is_empty());
}

#[test]
fn generation_avoids_obstacles_and_overlaps() {
    // Two sidewalks that cross, so that houses of the second can hit houses
    // of the first, and a park over part of the first.
    let network = RoadNetwork::new(
        vec![road(0, "residential")],
        vec![
            lane(0, 0, LaneType::Sidewalk, vec![pt(0, 0), pt(200 * M, 0)]),
            lane(1, 0, LaneType::Sidewalk, vec![pt(0, -20 * M), pt(200 * M, -12 * M)]),
        ],
        vec![],
    )
    .unwrap();
    let obstacles = vec![Obstacle::Area(rect(50 * M, -40 * M, 40 * M, 45 * M))];
    let basemap = Basemap::new(obstacles);
    let park = rect(50 * M, -40 * M, 40 * M, 45 * M);
    let config = PlacementConfig::default();
    let mut total = 0;
    for seed in 0..10 {
        let mut rng = RandomStream::seeded(seed);
        let generator =
            BuildingProceduralGenerator::new(&network, &basemap, &mut rng, &config).unwrap();
        let houses = generator.houses();
        assert_eq!(generator.num_houses(), houses.len());
        total += houses.len();
        for (i, h) in houses.iter().enumerate() {
            assert_eq!(generator.footprint(i).points(), h.polygon.points());
            for p in h.polygon.points().iter() {
                assert!(!park.contains_pt(*p));
            }
            for other in houses.iter().skip(i + 1) {
                assert!(!h.polygon.intersects(&other.polygon));
            }
        }
    }
    assert!(total > 0);
}
