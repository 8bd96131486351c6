//! Units and their discrete, tile-snap movement: a per-unit movement timer,
//! the eight movement directions, and the per-tick decision of which tile a
//! unit steps to, honouring walls, other units and the diagonal corner rule.
use vstd::prelude::*;
use crate::UPS_TARGET;
use crate::map::StructureManager;
use crate::tiles::TilePos;

verus! {

/// Interaction range of a unit, in tiles.
pub const UNIT_REACH: u8 = 1;

/// Default movement speed: ticks per tile moved; smaller is faster. One tile
/// per second at the target tick rate.
pub const UNIT_DEFAULT_MOVEMENT_SPEED: u32 = UPS_TARGET;

/// An autonomous entity with a task, inventory and navigation state.
pub struct Unit {
    pub name: String,
}

/// Marker for the player-controlled unit.
pub struct Player;

/// Marker for units that collide with other units (walls always collide).
pub struct UnitUnitCollisions;

/// The eight movement directions, or none.
#[derive(Debug, Clone, Copy, PartialEq, Eq, Structural)]
pub enum Direction {
    Null,
    NorthWest,
    North,
    NorthEast,
    East,
    SouthEast,
    South,
    SouthWest,
    West,
}

/// The tile offset a direction stands for.
pub open spec fn delta_spec(d: Direction) -> (int, int) {
    match d {
        Direction::Null => (0, 0),
        Direction::NorthWest => (-1, 1),
        Direction::North => (0, 1),
        Direction::NorthEast => (1, 1),
        Direction::East => (1, 0),
        Direction::SouthEast => (1, -1),
        Direction::South => (0, -1),
        Direction::SouthWest => (-1, -1),
        Direction::West => (-1, 0),
    }
}

/// The direction standing for a unit offset; anything else maps to `Null`.
pub open spec fn direction_of(d: (int, int)) -> Direction {
    if d == (0int, 0int) {
        Direction::Null
    } else if d == (-1int, 1int) {
        Direction::NorthWest
    } else if d == (0int, 1int) {
        Direction::North
    } else if d == (1int, 1int) {
        Direction::NorthEast
    } else if d == (1int, 0int) {
        Direction::East
    } else if d == (1int, -1int) {
        Direction::SouthEast
    } else if d == (0int, -1int) {
        Direction::South
    } else if d == (-1int, -1int) {
        Direction::SouthWest
    } else if d == (-1int, 0int) {
        Direction::West
    } else {
        Direction::Null
    }
}

impl Direction {
    /// The (dx, dy) tile offset of this direction.
    pub fn delta(&self) -> (r: (i32, i32))
        ensures
            (r.0 as int, r.1 as int) == delta_spec(*self),
    {
        match self {
            Direction::Null => (0, 0),
            Direction::NorthWest => (-1, 1),
            Direction::North => (0, 1),
            Direction::NorthEast => (1, 1),
            Direction::East => (1, 0),
            Direction::SouthEast => (1, -1),
            Direction::South => (0, -1),
            Direction::SouthWest => (-1, -1),
            Direction::West => (-1, 0),
        }
    }

    /// The direction matching a tile offset; offsets outside the eight unit
    /// steps give `Null`.
    pub fn from(delta: (i32, i32)) -> (r: Direction)
        ensures
            r == direction_of((delta.0 as int, delta.1 as int)),
    {
        if delta.0 == 0 && delta.1 == 0 {
            Direction::Null
        } else if delta.0 == -1 && delta.1 == 1 {
            Direction::NorthWest
        } else if delta.0 == 0 && delta.1 == 1 {
            Direction::North
        } else if delta.0 == 1 && delta.1 == 1 {
            Direction::NorthEast
        } else if delta.0 == 1 && delta.1 == 0 {
            Direction::East
        } else if delta.0 == 1 && delta.1 == -1 {
            Direction::SouthEast
        } else if delta.0 == 0 && delta.1 == -1 {
            Direction::South
        } else if delta.0 == -1 && delta.1 == -1 {
            Direction::SouthWest
        } else if delta.0 == -1 && delta.1 == 0 {
            Direction::West
        } else {
            Direction::Null
        }
    }
}

/// Discrete tile-snap movement state: the pending direction and the timer
/// that paces steps to the unit's speed.
pub struct TileMovement {
    pub direction: Direction,
    pub ticks_per_tile: u32,
    pub tick_counter: u32,
}

impl TileMovement {
    /// The timer never runs past one full step.
    pub open spec fn wf(&self) -> bool {
        self.tick_counter == 0 || self.tick_counter < self.ticks_per_tile
    }

    /// The configured speed, in ticks per tile.
    pub open spec fn speed_spec(&self) -> u32 {
        self.ticks_per_tile
    }

    pub fn new(ticks_per_tile: u32) -> (tm: TileMovement)
        ensures
            tm.wf(),
            tm.direction == Direction::Null,
            tm.speed_spec() == ticks_per_tile,
            tm.tick_counter == 0,
    {
        TileMovement { direction: Direction::Null, ticks_per_tile, tick_counter: 0 }
    }

    /// Change the speed and restart the step timer.
    pub fn update_speed(&mut self, ticks_per_tile: u32)
        ensures
            final(self).wf(),
            final(self).speed_spec() == ticks_per_tile,
            final(self).tick_counter == 0,
            final(self).direction == old(self).direction,
    {
        self.ticks_per_tile = ticks_per_tile;
        self.tick_counter = 0;
    }
}

impl Default for TileMovement {
    /// Movement state at rest, at the default speed.
    fn default() -> (tm: TileMovement)
        ensures
            tm.wf(),
            tm.direction == Direction::Null,
            tm.speed_spec() == UNIT_DEFAULT_MOVEMENT_SPEED,
            tm.tick_counter == 0,
    {
        TileMovement {
            direction: Direction::Null,
            ticks_per_tile: UNIT_DEFAULT_MOVEMENT_SPEED,
            tick_counter: 0,
        }
    }
}

/// Advance the movement timer; true exactly when a full step's worth of ticks
/// has elapsed (and the timer restarts). A unit with no pending direction
/// never steps and its timer stays put.
pub fn should_process_movement(tile_movement: &mut TileMovement) -> (step: bool)
    requires
        old(tile_movement).wf(),
    ensures
        final(tile_movement).wf(),
        final(tile_movement).direction == old(tile_movement).direction,
        final(tile_movement).speed_spec() == old(tile_movement).speed_spec(),
        old(tile_movement).direction == Direction::Null ==> !step && *final(tile_movement)
            == *old(tile_movement),
        old(tile_movement).direction != Direction::Null ==> {
            &&& step == (old(tile_movement).tick_counter + 1 >= old(tile_movement).speed_spec())
            &&& (step ==> final(tile_movement).tick_counter == 0)
            &&& (!step ==> final(tile_movement).tick_counter == old(tile_movement).tick_counter + 1)
        },
{
    if tile_movement.direction == Direction::Null {
        return false;
    }
    tile_movement.tick_counter = tile_movement.tick_counter + 1;
    if tile_movement.tick_counter >= tile_movement.ticks_per_tile {
        tile_movement.tick_counter = 0;
        true
    } else {
        false
    }
}

/// What the movement decision resolves to for one tick.
pub enum MovementResult {
    Success { target_tile: TilePos, new_direction: Direction },
    Blocked,
}

/// Whether a unit may step onto `tile`: it is passable, and, when the unit
/// collides with other units, not occupied by one.
pub open spec fn can_move_spec(
    m: StructureManager,
    occupied: Seq<TilePos>,
    has_unit_collisions: bool,
    tile: TilePos,
) -> bool {
    m.is_passable_spec(tile) && (!has_unit_collisions || !occupied.contains(tile))
}

pub fn can_move_to(
    tile: TilePos,
    structure_manager: &StructureManager,
    occupied_tiles: &Vec<TilePos>,
    has_unit_collisions: bool,
) -> (r: bool)
    requires
        structure_manager.wf(),
    ensures
        r == can_move_spec(*structure_manager, occupied_tiles@, has_unit_collisions, tile),
{
    if !crate::map::is_tile_passable(tile, structure_manager) {
        return false;
    }
    if !has_unit_collisions {
        return true;
    }
    let mut i: usize = 0;
    while i < occupied_tiles.len()
        invariant
            i <= occupied_tiles@.len(),
            forall|j: int| 0 <= j < i ==> occupied_tiles@[j] != tile,
        decreases occupied_tiles@.len() - i,
    {
        if occupied_tiles[i].x == tile.x && occupied_tiles[i].y == tile.y {
            return false;
        }
        i += 1;
    }
    true
}

/// Whether an offset moves on both axes at once.
pub open spec fn is_diagonal_delta(d: (int, int)) -> bool {
    d.0 != 0 && d.1 != 0
}

pub fn is_diagonal_movement(delta: (i32, i32)) -> (r: bool)
    ensures
        r == is_diagonal_delta((delta.0 as int, delta.1 as int)),
{
    delta.0 != 0 && delta.1 != 0
}

/// The tile `offset` away from `t` (coordinates must stay representable).
pub open spec fn tile_plus(t: TilePos, offset: (int, int)) -> TilePos {
    TilePos { x: (t.x + offset.0) as i32, y: (t.y + offset.1) as i32 }
}

/// What one tick of movement resolves to, given where the unit stands, where
/// it wants to go, and what blocks it. A diagonal wish with both bracketing
/// orthogonal tiles blocked is refused outright; a free diagonal or
/// orthogonal target is taken; a blocked diagonal falls back to its
/// north/south axis first, then east/west; anything else is blocked.
pub open spec fn calculate_movement_spec(
    m: StructureManager,
    occupied: Seq<TilePos>,
    has_unit_collisions: bool,
    current_tile: TilePos,
    desired_direction: Direction,
) -> MovementResult {
    let d = delta_spec(desired_direction);
    let target = tile_plus(current_tile, d);
    let tile_x = tile_plus(current_tile, (d.0, 0));
    let tile_y = tile_plus(current_tile, (0, d.1));
    if is_diagonal_delta(d) && !can_move_spec(m, occupied, has_unit_collisions, tile_x)
        && !can_move_spec(m, occupied, has_unit_collisions, tile_y) {
        MovementResult::Blocked
    } else if can_move_spec(m, occupied, has_unit_collisions, target) {
        MovementResult::Success { target_tile: target, new_direction: desired_direction }
    } else if is_diagonal_delta(d) {
        if can_move_spec(m, occupied, has_unit_collisions, tile_y) {
            MovementResult::Success {
                target_tile: tile_y,
                new_direction: direction_of((0, d.1)),
            }
        } else if can_move_spec(m, occupied, has_unit_collisions, tile_x) {
            MovementResult::Success {
                target_tile: tile_x,
                new_direction: direction_of((d.0, 0)),
            }
        } else {
            MovementResult::Blocked
        }
    } else {
        MovementResult::Blocked
    }
}

/// Decide where a unit wanting to move `desired_direction` from
/// `current_tile` actually steps this tick.
pub fn calculate_movement(
    current_tile: TilePos,
    desired_direction: Direction,
    structure_manager: &StructureManager,
    occupied_tiles: &Vec<TilePos>,
    has_unit_collisions: bool,
) -> (r: MovementResult)
    requires
        structure_manager.wf(),
        i32::MIN < current_tile.x < i32::MAX,
        i32::MIN < current_tile.y < i32::MAX,
    ensures
        r == calculate_movement_spec(
            *structure_manager,
            occupied_tiles@,
            has_unit_collisions,
            current_tile,
            desired_direction,
        ),
{
    let desired_delta = desired_direction.delta();
    let desired_target = TilePos {
        x: current_tile.x + desired_delta.0,
        y: current_tile.y + desired_delta.1,
    };
    let tile_x = TilePos { x: current_tile.x + desired_delta.0, y: current_tile.y };
    let tile_y = TilePos { x: current_tile.x, y: current_tile.y + desired_delta.1 };

    if is_diagonal_movement(desired_delta) {
        let can_move_x = can_move_to(
            tile_x,
            structure_manager,
            occupied_tiles,
            has_unit_collisions,
        );
        let can_move_y = can_move_to(
            tile_y,
            structure_manager,
            occupied_tiles,
            has_unit_collisions,
        );
        if !can_move_x && !can_move_y {
            return MovementResult::Blocked;
        }
    }
    if can_move_to(desired_target, structure_manager, occupied_tiles, has_unit_collisions) {
        return MovementResult::Success {
            target_tile: desired_target,
            new_direction: desired_direction,
        };
    }
    if is_diagonal_movement(desired_delta) {
        if can_move_to(tile_y, structure_manager, occupied_tiles, has_unit_collisions) {
            MovementResult::Success {
                target_tile: tile_y,
                new_direction: Direction::from((0, desired_delta.1)),
            }
        } else if can_move_to(tile_x, structure_manager, occupied_tiles, has_unit_collisions) {
            MovementResult::Success {
                target_tile: tile_x,
                new_direction: Direction::from((desired_delta.0, 0)),
            }
        } else {
            MovementResult::Blocked
        }
    } else {
        MovementResult::Blocked
    }
}

/// One movement tick for a unit: advance the timer and, when a step is due,
/// move to the decided tile (returned for the world to apply) or clear the
/// direction when blocked.
pub fn move_unit_tick(
    tile_movement: &mut TileMovement,
    current_tile: TilePos,
    structure_manager: &StructureManager,
    occupied_tiles: &Vec<TilePos>,
    has_unit_collisions: bool,
) -> (moved_to: Option<TilePos>)
    requires
        old(tile_movement).wf(),
        structure_manager.wf(),
        i32::MIN < current_tile.x < i32::MAX,
        i32::MIN < current_tile.y < i32::MAX,
    ensures
        final(tile_movement).wf(),
        final(tile_movement).speed_spec() == old(tile_movement).speed_spec(),
        ({
            let due = old(tile_movement).direction != Direction::Null && old(
                tile_movement,
            ).tick_counter + 1 >= old(tile_movement).speed_spec();
            let decision = calculate_movement_spec(
                *structure_manager,
                occupied_tiles@,
                has_unit_collisions,
                current_tile,
                old(tile_movement).direction,
            );
            if !due {
                moved_to is None && final(tile_movement).direction == old(tile_movement).direction
            } else {
                match decision {
                    MovementResult::Success { target_tile, new_direction } => {
                        moved_to == Some(target_tile) && final(tile_movement).direction
                            == new_direction
                    },
                    MovementResult::Blocked => {
                        moved_to is None && final(tile_movement).direction == Direction::Null
                    },
                }
            }
        }),
{
    if !should_process_movement(tile_movement) {
        return None;
    }
    match calculate_movement(
        current_tile,
        tile_movement.direction,
        structure_manager,
        occupied_tiles,
        has_unit_collisions,
    ) {
        MovementResult::Success { target_tile, new_direction } => {
            tile_movement.direction = new_direction;
            Some(target_tile)
        },
        MovementResult::Blocked => {
            tile_movement.direction = Direction::Null;
            None
        },
    }
}

} // verus!
