use building_procgen::geometry::Bounds;
use building_procgen::spatial_index::SpatialIndex;

fn brute_force(boxes: &Vec<Bounds>, q: &Bounds) -> Vec<usize> {
    let mut hits = Vec::new();
    for (i, b) in boxes.iter().enumerate() {
        if b.intersects(q) {
            hits.push(i);
        }
    }
    hits
}

#[test]
fn index_returns_meeting_boxes_in_order() {
    let frame = Bounds { min_x: 0, min_y: 0, max_x: 1_000_000, max_y: 1_000_000 };
    let mut index = SpatialIndex::new(&frame);
    for k in 0..40i64 {
        let b = Bounds { min_x: k * 1000, min_y: 0, max_x: k * 1000 + 1500, max_y: 10 };
        assert_eq!(index.insert(b), k as usize);
    }
    assert_eq!(index.len(), 40);
    let q = Bounds { min_x: 4200, min_y: 5, max_x: 6100, max_y: 6 };
    assert_eq!(index.query(&q), vec![3, 4, 5, 6]);
    let far = Bounds { min_x: 4200, min_y: 11, max_x: 6100, max_y: 12 };
    assert_eq!(index.query(&far), Vec::<usize>::new());
}

#[test]
fn empty_index_finds_nothing() {
    let frame = Bounds { min_x: -5, min_y: -5, max_x: 5, max_y: 5 };
    let index = SpatialIndex::new(&frame);
    assert_eq!(index.len(), 0);
    assert_eq!(index.query(&frame), Vec::<usize>::new());
}

#[test]
fn index_agrees_with_a_full_scan() {
    // A fixed scatter of boxes, dense enough that the tree splits many times.
    let frame = Bounds { min_x: 0, min_y: 0, max_x: 10_000_000, max_y: 10_000_000 };
    let mut index = SpatialIndex::new(&frame);
    let mut boxes = Vec::new();
    let mut state: u64 = 12345;
    let mut next = |limit: i64| -> i64 {
        state = state.wrapping_mul(6364136223846793005).wrapping_add(1442695040888963407);
        ((state >> 33) as i64) % limit
    };
    for _ in 0..2000 {
        let x = next(10_000_000);
        let y = next(10_000_000);
        let w = next(200_000);
        let h = next(200_000);
        let b = Bounds { min_x: x, min_y: y, max_x: x + w, max_y: y + h };
        index.insert(b);
        boxes.push(b);
    }
    for _ in 0..300 {
        let x = next(10_000_000);
        let y = next(10_000_000);
        let w = next(500_000);
        let h = next(500_000);
        let q = Bounds { min_x: x, min_y: y, max_x: x + w, max_y: y + h };
        assert_eq!(index.query(&q), brute_force(&boxes, &q));
    }
}

#[test]
fn index_handles_boxes_outside_its_frame() {
    let frame = Bounds { min_x: 0, min_y: 0, max_x: 1000, max_y: 1000 };
    let mut index = SpatialIndex::new(&frame);
    let mut boxes = Vec::new();
    for k in 0..60i64 {
        let b = Bounds {
            min_x: -50_000 + k * 2000,
            min_y: -3000 + k * 100,
            max_x: -50_000 + k * 2000 + 2500,
            max_y: -3000 + k * 100 + 50,
        };
        index.insert(b);
        boxes.push(b);
    }
    for k in 0..60i64 {
        let q = Bounds {
            min_x: -50_000 + k * 2000 + 100,
            min_y: -4000,
            max_x: -50_000 + k * 2000 + 200,
            max_y: 4000,
        };
        assert_eq!(index.query(&q), brute_force(&boxes, &q));
    }
}

#[test]
fn equal_boxes_all_come_back() {
    let frame = Bounds { min_x: 0, min_y: 0, max_x: 100, max_y: 100 };
    let mut index = SpatialIndex::new(&frame);
    let b = Bounds { min_x: 10, min_y: 10, max_x: 20, max_y: 20 };
    for _ in 0..50 {
        index.insert(b);
    }
    let hits = index.query(&Bounds { min_x: 20, min_y: 20, max_x: 30, max_y: 30 });
    assert_eq!(hits, (0..50).collect::<Vec<usize>>());
}

#[test]
fn boxes_without_extent_are_found() {
    let frame = Bounds { min_x: 0, min_y: 0, max_x: 1000, max_y: 1000 };
    let mut index = SpatialIndex::new(&frame);
    let mut boxes = Vec::new();
    for k in 0..100i64 {
        let b = Bounds { min_x: k * 10, min_y: k * 10, max_x: k * 10, max_y: k * 10 };
        index.insert(b);
        boxes.push(b);
    }
    for k in 0..100i64 {
        let at = Bounds { min_x: k * 10, min_y: k * 10, max_x: k * 10, max_y: k * 10 };
        assert_eq!(index.query(&at), vec![k as usize]);
        let beside = Bounds { min_x: k * 10 + 1, min_y: k * 10, max_x: k * 10 + 5, max_y: k * 10 };
        assert_eq!(index.query(&beside), Vec::<usize>::new());
    }
    let all = Bounds { min_x: -1, min_y: -1, max_x: 2000, max_y: 2000 };
    assert_eq!(index.query(&all), brute_force(&boxes, &all));
}

#[test]
fn index_covers_the_whole_world() {
    let limit: i64 = 1 << 39;
    let frame = Bounds { min_x: -limit, min_y: -limit, max_x: limit, max_y: limit };
    let mut index = SpatialIndex::new(&frame);
    let mut boxes = Vec::new();
    let steps: Vec<i64> = vec![-limit, -limit / 2, -1, 0, 1, limit / 2, limit - 10];
    for &x in steps.iter() {
        for &y in steps.iter() {
            let b = Bounds { min_x: x, min_y: y, max_x: x + 10, max_y: y + 10 };
            index.insert(b);
            boxes.push(b);
        }
    }
    for &x in steps.iter() {
        for &y in steps.iter() {
            let q = Bounds { min_x: x - 5, min_y: y - 5, max_x: x + 5, max_y: y + 5 };
            assert_eq!(index.query(&q), brute_force(&boxes, &q));
        }
    }
    let everything = Bounds { min_x: -2 * limit, min_y: -2 * limit, max_x: 2 * limit, max_y: 2 * limit };
    assert_eq!(index.query(&everything).len(), boxes.len());
}
