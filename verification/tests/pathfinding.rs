use overlord_core::map::{is_tile_passable, StructureManager};
use overlord_core::pathfinding::{find_nearest_passable_tile, find_path, heuristic};
use overlord_core::tiles::TilePos;

fn tile(x: i32, y: i32) -> TilePos {
    TilePos { x, y }
}

fn adjacent(a: TilePos, b: TilePos) -> bool {
    a != b && (a.x - b.x).abs() <= 1 && (a.y - b.y).abs() <= 1
}

/// Every consecutive pair of tiles is a legal step and every tile after the
/// first is passable; a diagonal step never cuts a blocked corner.
fn assert_path_valid(path: &[TilePos], start: TilePos, m: &StructureManager) {
    assert!(!path.is_empty());
    assert_eq!(path[0], start);
    for w in path.windows(2) {
        let (a, b) = (w[0], w[1]);
        assert!(adjacent(a, b), "non-adjacent step {:?} -> {:?}", a, b);
        assert!(is_tile_passable(b, m), "impassable tile {:?}", b);
        if (a.x - b.x).abs() == 1 && (a.y - b.y).abs() == 1 {
            assert!(
                is_tile_passable(tile(a.x, b.y), m) || is_tile_passable(tile(b.x, a.y), m),
                "corner cut at {:?} -> {:?}",
                a,
                b
            );
        }
    }
}

#[test]
fn straight_line_on_open_ground() {
    let m = StructureManager::new();
    let start = tile(0, 0);
    let goal = tile(5, 0);
    let (found, exhausted) = find_path(start, goal, &m);
    let path = found.expect("open ground must route");
    assert!(!exhausted);
    assert_path_valid(&path, start, &m);
    assert_eq!(*path.last().unwrap(), goal);
}

#[test]
fn start_equals_goal_gives_trivial_path() {
    let m = StructureManager::new();
    let (found, exhausted) = find_path(tile(3, 3), tile(3, 3), &m);
    assert!(!exhausted);
    assert_eq!(found.expect("trivial route"), vec![tile(3, 3)]);
}

#[test]
fn routes_around_a_wall() {
    let mut m = StructureManager::new();
    // A vertical wall at x == 2 with a gap at y == 4.
    for y in -3..4 {
        m.register_structure(tile(2, y), (y + 10) as u64);
    }
    let start = tile(0, 0);
    let goal = tile(4, 0);
    let path = find_path(start, goal, &m).0.expect("gap must be found");
    assert_path_valid(&path, start, &m);
    assert_eq!(*path.last().unwrap(), goal);
    // Wherever the route crosses the wall line it must use a gap.
    assert!(path.iter().all(|t| t.x != 2 || t.y >= 4 || t.y <= -4));
    assert!(path.iter().any(|t| t.x == 2));
}

#[test]
fn no_corner_cutting_through_diagonal_gap() {
    let mut m = StructureManager::new();
    // Two walls touching at a corner: (1,0) and (0,1). Stepping from (0,0) to
    // (1,1) diagonally would squeeze between them; the route must go around.
    m.register_structure(tile(1, 0), 1);
    m.register_structure(tile(0, 1), 2);
    let start = tile(0, 0);
    let goal = tile(2, 2);
    let path = find_path(start, goal, &m).0.expect("a way around exists");
    assert_path_valid(&path, start, &m);
    assert_eq!(*path.last().unwrap(), goal);
    // The direct diagonal through the solid corner was not taken.
    assert!(!(path.len() >= 2 && path[1] == tile(1, 1)));
}

#[test]
fn fully_enclosed_start_yields_no_path() {
    let mut m = StructureManager::new();
    let mut id = 1u64;
    for dx in -1..=1 {
        for dy in -1..=1 {
            if dx != 0 || dy != 0 {
                m.register_structure(tile(dx, dy), id);
                id += 1;
            }
        }
    }
    let (found, exhausted) = find_path(tile(0, 0), tile(10, 0), &m);
    assert!(found.is_none());
    // A refusal comes from exhausting the reachable tiles, not the budget.
    assert!(!exhausted);
}

#[test]
fn blocked_goal_is_substituted_on_the_approach_side() {
    let mut m = StructureManager::new();
    // The goal tile itself is a wall; the scan must land directly opposite
    // the approach direction, at (4, 0) for an approach from the west.
    m.register_structure(tile(5, 0), 1);
    let start = tile(0, 0);
    let (found, exhausted) = find_path(start, tile(5, 0), &m);
    assert!(!exhausted);
    let path = found.expect("substitute must route");
    assert_path_valid(&path, start, &m);
    assert_eq!(*path.last().unwrap(), tile(4, 0));
}

#[test]
fn goal_walled_except_one_side_is_approached_there() {
    let mut m = StructureManager::new();
    let goal = tile(6, 0);
    // The goal is solid and surrounded, except that its west neighbor stays
    // open; a correct substitution ends the path there.
    m.register_structure(goal, 1);
    m.register_structure(tile(7, 0), 2);
    m.register_structure(tile(6, 1), 3);
    m.register_structure(tile(6, -1), 4);
    m.register_structure(tile(7, 1), 5);
    m.register_structure(tile(7, -1), 6);
    let start = tile(0, 0);
    let (found, exhausted) = find_path(start, goal, &m);
    assert!(!exhausted);
    let path = found.expect("the open side must be used");
    assert_path_valid(&path, start, &m);
    assert_eq!(*path.last().unwrap(), tile(5, 0));
}

#[test]
fn ring_scan_prefers_opposite_then_perpendicular() {
    let mut m = StructureManager::new();
    let target = tile(10, 0);
    m.register_structure(target, 1);
    // Opposite of the approach (from the west) is (9,0); block it and the
    // scan should move on to the perpendicular tiles (10,1) first.
    m.register_structure(tile(9, 0), 2);
    let found = find_nearest_passable_tile(target, tile(0, 0), &m);
    assert_eq!(found, Some(tile(10, 1)));
}

#[test]
fn ring_scan_gives_up_past_radius_five() {
    let mut m = StructureManager::new();
    let target = tile(0, 0);
    // Wall up everything within Chebyshev distance 5 of the target.
    let mut id = 1u64;
    for x in -5..=5 {
        for y in -5..=5 {
            m.register_structure(tile(x, y), id);
            id += 1;
        }
    }
    assert_eq!(find_nearest_passable_tile(target, tile(20, 0), &m), None);
    // find_path then falls back to the start tile: a holding-position route.
    let path = find_path(tile(20, 0), target, &m).0.expect("fallback to start");
    assert_eq!(path, vec![tile(20, 0)]);
}

#[test]
fn exhausted_budget_returns_progress_toward_goal() {
    let mut m = StructureManager::new();
    // A large walled box around the start. The goal lies outside, so the
    // search can never reach it, and the interior is big enough that the
    // expansion budget runs out before the open set empties. The partial
    // path must end no farther from the goal than the start was.
    let half = 31i32;
    let mut id = 1u64;
    for i in -half..=half {
        m.register_structure(tile(i, half), id);
        id += 1;
        m.register_structure(tile(i, -half), id);
        id += 1;
        m.register_structure(tile(half, i), id);
        id += 1;
        m.register_structure(tile(-half, i), id);
        id += 1;
    }
    let start = tile(0, 0);
    let goal = tile(45, 0);
    let (found, exhausted) = find_path(start, goal, &m);
    assert!(exhausted, "the budget must run out inside the box");
    let path = found.expect("partial path expected");
    assert_path_valid(&path, start, &m);
    let last = *path.last().unwrap();
    assert!(heuristic(last, goal) <= heuristic(start, goal));
    // The search really was cut short inside the box.
    assert!(last != goal);
}

#[test]
fn heuristic_is_scaled_euclidean() {
    assert_eq!(heuristic(tile(0, 0), tile(0, 0)), 0);
    assert_eq!(heuristic(tile(0, 0), tile(3, 4)), 50);
    assert_eq!(heuristic(tile(0, 0), tile(1, 1)), 14);
    assert_eq!(heuristic(tile(2, 2), tile(2, 7)), 50);
}
