use building_procgen::geometry::{Bounds, Pt2D};
use building_procgen::network::{
    Building, Lane, LaneID, LaneType, Road, RoadID, RoadNetwork, Tags,
};
use building_procgen::polyline::PolyLine;

fn pt(x: i64, y: i64) -> Pt2D {
    Pt2D::new(x, y)
}

fn road(id: usize, highway: Option<&str>) -> Road {
    let mut tags = Tags::new();
    tags.insert("name".to_string(), "Elm Street".to_string());
    if let Some(class) = highway {
        tags.insert("highway".to_string(), class.to_string());
    }
    Road { id: RoadID(id), osm_tags: tags }
}

fn lane(id: usize, parent: usize, lane_type: LaneType) -> Lane {
    let y = id as i64 * 100;
    Lane {
        id: LaneID(id),
        parent: RoadID(parent),
        lane_type,
        lane_center_pts: PolyLine::new(vec![pt(0, y), pt(1000, y)]).unwrap(),
    }
}

#[test]
fn tags_hold_one_value_per_key() {
    let mut tags = Tags::new();
    assert!(!tags.is("highway", "residential"));
    tags.insert("highway".to_string(), "primary".to_string());
    assert!(tags.is("highway", "primary"));
    assert!(!tags.is("highway", "residential"));
    assert!(!tags.is("primary", "highway"));
    tags.insert("highway".to_string(), "residential".to_string());
    assert!(tags.is("highway", "residential"));
    assert!(!tags.is("highway", "primary"));
}

#[test]
fn road_is_residential_by_its_highway_tag() {
    assert!(road(0, Some("residential")).is_residential());
    assert!(!road(0, Some("primary")).is_residential());
    assert!(!road(0, None).is_residential());
    let mut tags = Tags::new();
    tags.insert("landuse".to_string(), "residential".to_string());
    assert!(!Road { id: RoadID(0), osm_tags: tags }.is_residential());
}

#[test]
fn network_checks_its_ids() {
    assert!(RoadNetwork::new(vec![], vec![], vec![]).is_some());
    assert!(RoadNetwork::new(vec![road(1, None)], vec![], vec![]).is_none());
    assert!(RoadNetwork::new(
        vec![road(0, None)],
        vec![lane(1, 0, LaneType::Driving)],
        vec![]
    )
    .is_none());
    assert!(RoadNetwork::new(
        vec![road(0, None)],
        vec![lane(0, 1, LaneType::Driving)],
        vec![]
    )
    .is_none());
    let ok = RoadNetwork::new(
        vec![road(0, None)],
        vec![lane(0, 0, LaneType::Driving)],
        vec![Building { sidewalk: LaneID(77) }],
    )
    .unwrap();
    assert_eq!(ok.all_lanes().len(), 1);
    assert_eq!(ok.all_buildings().len(), 1);
    assert_eq!(ok.all_buildings()[0].sidewalk(), LaneID(77));
    assert_eq!(ok.get_l(LaneID(0)).id, LaneID(0));
    assert_eq!(ok.get_r(RoadID(0)).id, RoadID(0));
}

#[test]
fn network_bounds_hold_origin_and_lanes() {
    let net = RoadNetwork::new(
        vec![road(0, None)],
        vec![
            Lane {
                id: LaneID(0),
                parent: RoadID(0),
                lane_type: LaneType::Driving,
                lane_center_pts: PolyLine::new(vec![pt(10, 20), pt(300, -40)]).unwrap(),
            },
            Lane {
                id: LaneID(1),
                parent: RoadID(0),
                lane_type: LaneType::Sidewalk,
                lane_center_pts: PolyLine::new(vec![pt(50, 500), pt(60, 70), pt(-5, 80)]).unwrap(),
            },
        ],
        vec![],
    )
    .unwrap();
    assert_eq!(net.get_bounds(), Bounds { min_x: -5, min_y: -40, max_x: 300, max_y: 500 });
    let empty = RoadNetwork::new(vec![], vec![], vec![]).unwrap();
    assert_eq!(empty.get_bounds(), Bounds { min_x: 0, min_y: 0, max_x: 0, max_y: 0 });
}

#[test]
fn selector_keeps_empty_residential_sidewalks_in_lane_order() {
    let net = RoadNetwork::new(
        vec![road(0, Some("residential")), road(1, Some("primary")), road(2, None)],
        vec![
            lane(0, 0, LaneType::Driving),
            lane(1, 0, LaneType::Sidewalk),
            lane(2, 1, LaneType::Sidewalk),
            lane(3, 0, LaneType::Sidewalk),
            lane(4, 2, LaneType::Sidewalk),
            lane(5, 0, LaneType::Parking),
            lane(6, 0, LaneType::Sidewalk),
            lane(7, 0, LaneType::Biking),
            lane(8, 0, LaneType::Bus),
        ],
        vec![Building { sidewalk: LaneID(3) }, Building { sidewalk: LaneID(2) }],
    )
    .unwrap();
    assert_eq!(net.empty_residential_sidewalks(), vec![LaneID(1), LaneID(6)]);
    assert!(net.get_l(LaneID(1)).is_sidewalk());
    assert!(!net.get_l(LaneID(0)).is_sidewalk());
}

#[test]
fn selector_finds_nothing_where_every_sidewalk_has_a_building() {
    let net = RoadNetwork::new(
        vec![road(0, Some("residential"))],
        vec![lane(0, 0, LaneType::Sidewalk), lane(1, 0, LaneType::Sidewalk)],
        vec![
            Building { sidewalk: LaneID(1) },
            Building { sidewalk: LaneID(0) },
            Building { sidewalk: LaneID(1) },
        ],
    )
    .unwrap();
    assert!(net.empty_residential_sidewalks().is_empty());
}
