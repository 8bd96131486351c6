use overlord_core::map::StructureManager;
use overlord_core::pathfinding::{movement_step, pathfinding_step, PathfindingAgent, LIMIT_STUCK_TICKS};
use overlord_core::tiles::TilePos;
use overlord_core::units::{
    calculate_movement, move_unit_tick, should_process_movement, Direction, MovementResult,
    TileMovement, UNIT_DEFAULT_MOVEMENT_SPEED,
};

fn tile(x: i32, y: i32) -> TilePos {
    TilePos { x, y }
}

#[test]
fn direction_round_trip() {
    let dirs = [
        Direction::NorthWest,
        Direction::North,
        Direction::NorthEast,
        Direction::East,
        Direction::SouthEast,
        Direction::South,
        Direction::SouthWest,
        Direction::West,
        Direction::Null,
    ];
    for d in dirs {
        assert_eq!(Direction::from(d.delta()), d);
    }
    assert_eq!(Direction::from((2, 0)), Direction::Null);
}

#[test]
fn movement_timer_paces_steps() {
    let mut tm = TileMovement::new(3);
    tm.direction = Direction::East;
    assert!(!should_process_movement(&mut tm));
    assert!(!should_process_movement(&mut tm));
    assert!(should_process_movement(&mut tm));
    assert_eq!(tm.tick_counter, 0);
}

#[test]
fn idle_unit_never_steps() {
    let mut tm = TileMovement::new(1);
    assert!(!should_process_movement(&mut tm));
    assert_eq!(tm.tick_counter, 0);
}

#[test]
fn default_speed_matches_tick_rate() {
    let tm = TileMovement::default();
    assert_eq!(tm.ticks_per_tile, UNIT_DEFAULT_MOVEMENT_SPEED);
    assert_eq!(tm.direction, Direction::Null);
}

#[test]
fn free_ground_moves_in_desired_direction() {
    let m = StructureManager::new();
    let occupied: Vec<TilePos> = Vec::new();
    match calculate_movement(tile(0, 0), Direction::NorthEast, &m, &occupied, false) {
        MovementResult::Success { target_tile, new_direction } => {
            assert_eq!(target_tile, tile(1, 1));
            assert_eq!(new_direction, Direction::NorthEast);
        }
        MovementResult::Blocked => panic!("open ground must not block"),
    }
}

#[test]
fn blocked_diagonal_with_both_corners_blocked_is_refused() {
    let mut m = StructureManager::new();
    m.register_structure(tile(1, 0), 1);
    m.register_structure(tile(0, 1), 2);
    let occupied: Vec<TilePos> = Vec::new();
    match calculate_movement(tile(0, 0), Direction::NorthEast, &m, &occupied, false) {
        MovementResult::Blocked => {}
        MovementResult::Success { .. } => panic!("both corners blocked must refuse"),
    }
}

#[test]
fn blocked_diagonal_falls_back_to_vertical_axis_first() {
    let mut m = StructureManager::new();
    // The diagonal target itself is blocked, but both axes are open; the
    // north/south axis must win.
    m.register_structure(tile(1, 1), 1);
    let occupied: Vec<TilePos> = Vec::new();
    match calculate_movement(tile(0, 0), Direction::NorthEast, &m, &occupied, false) {
        MovementResult::Success { target_tile, new_direction } => {
            assert_eq!(target_tile, tile(0, 1));
            assert_eq!(new_direction, Direction::North);
        }
        MovementResult::Blocked => panic!("axis fallback expected"),
    }
}

#[test]
fn occupied_tile_blocks_only_colliding_units() {
    let m = StructureManager::new();
    let occupied = vec![tile(1, 0)];
    match calculate_movement(tile(0, 0), Direction::East, &m, &occupied, true) {
        MovementResult::Blocked => {}
        MovementResult::Success { .. } => panic!("occupied tile must block"),
    }
    match calculate_movement(tile(0, 0), Direction::East, &m, &occupied, false) {
        MovementResult::Success { target_tile, .. } => assert_eq!(target_tile, tile(1, 0)),
        MovementResult::Blocked => panic!("non-colliding unit passes through"),
    }
}

#[test]
fn move_unit_tick_applies_decision_when_due() {
    let m = StructureManager::new();
    let occupied: Vec<TilePos> = Vec::new();
    let mut tm = TileMovement::new(1);
    tm.direction = Direction::East;
    assert_eq!(move_unit_tick(&mut tm, tile(0, 0), &m, &occupied, false), Some(tile(1, 0)));
    // A slower unit does nothing on its off ticks.
    let mut tm2 = TileMovement::new(2);
    tm2.direction = Direction::East;
    assert_eq!(move_unit_tick(&mut tm2, tile(0, 0), &m, &occupied, false), None);
    assert_eq!(move_unit_tick(&mut tm2, tile(0, 0), &m, &occupied, false), Some(tile(1, 0)));
}

#[test]
fn agent_follows_waypoints_and_arrives() {
    let mut agent = PathfindingAgent::default();
    agent.target = Some(tile(2, 0));
    agent.path.push_back(tile(1, 0));
    agent.path.push_back(tile(2, 0));

    // Standing before the first waypoint: step east.
    assert_eq!(movement_step(&mut agent, tile(0, 0)), Some(Direction::East));
    // On the waypoint: it is popped and the direction cleared for this tick.
    assert_eq!(movement_step(&mut agent, tile(1, 0)), Some(Direction::Null));
    assert_eq!(movement_step(&mut agent, tile(1, 0)), Some(Direction::East));
    // Arrival at the last waypoint resets all navigation state.
    assert_eq!(movement_step(&mut agent, tile(2, 0)), Some(Direction::Null));
    assert!(agent.target.is_none());
    assert!(agent.path.is_empty());
    assert_eq!(agent.stuck_ticks_counter, 0);
}

#[test]
fn stuck_agent_abandons_navigation() {
    let mut agent = PathfindingAgent::default();
    agent.target = Some(tile(5, 0));
    agent.path.push_back(tile(5, 0));
    agent.last_tile_pos = Some(tile(0, 0));
    agent.stuck_ticks_counter = LIMIT_STUCK_TICKS;
    // One more tick without tile progress crosses the threshold.
    assert_eq!(movement_step(&mut agent, tile(0, 0)), None);
    assert!(agent.target.is_none());
    assert!(agent.path.is_empty());
    assert_eq!(agent.stuck_ticks_counter, 0);
}

#[test]
fn progress_keeps_the_stuck_counter() {
    let mut agent = PathfindingAgent::default();
    agent.target = Some(tile(5, 0));
    agent.path.push_back(tile(5, 0));
    agent.last_tile_pos = Some(tile(0, 0));
    agent.stuck_ticks_counter = LIMIT_STUCK_TICKS;
    // The agent moved since last tick, so the counter does not grow.
    assert_eq!(movement_step(&mut agent, tile(1, 0)), Some(Direction::East));
    assert_eq!(agent.stuck_ticks_counter, LIMIT_STUCK_TICKS);
    assert_eq!(agent.last_tile_pos, Some(tile(1, 0)));
}

#[test]
fn empty_path_idles() {
    let mut agent = PathfindingAgent::default();
    assert_eq!(movement_step(&mut agent, tile(0, 0)), Some(Direction::Null));
}

#[test]
fn pathfinding_step_computes_a_route_once() {
    let mut m = StructureManager::new();
    m.register_structure(tile(1, 0), 1);
    m.register_structure(tile(1, 1), 2);
    m.register_structure(tile(1, -1), 3);
    let mut agent = PathfindingAgent::default();
    agent.target = Some(tile(3, 0));
    pathfinding_step(&mut agent, tile(0, 0), &m);
    assert!(!agent.path.is_empty());
    assert_eq!(*agent.path.back().unwrap(), tile(3, 0));
    // With waypoints in hand, another step leaves them alone.
    let before: Vec<TilePos> = agent.path.iter().copied().collect();
    pathfinding_step(&mut agent, tile(0, 0), &m);
    let after: Vec<TilePos> = agent.path.iter().copied().collect();
    assert_eq!(before, after);
}

#[test]
fn pathfinding_step_resets_when_no_route_exists() {
    let mut m = StructureManager::new();
    let mut id = 1u64;
    for dx in -1..=1 {
        for dy in -1..=1 {
            if dx != 0 || dy != 0 {
                m.register_structure(tile(dx, dy), id);
                id += 1;
            }
        }
    }
    let mut agent = PathfindingAgent::default();
    agent.target = Some(tile(10, 0));
    pathfinding_step(&mut agent, tile(0, 0), &m);
    assert!(agent.target.is_none());
    assert!(agent.path.is_empty());
}

#[test]
fn pathfinding_step_without_target_does_nothing() {
    let m = StructureManager::new();
    let mut agent = PathfindingAgent::default();
    pathfinding_step(&mut agent, tile(0, 0), &m);
    assert!(agent.target.is_none());
    assert!(agent.path.is_empty());
}
