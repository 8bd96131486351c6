use overlord_core::map::{is_tile_passable, ChunkManager, StructureManager};
use overlord_core::tiles::{
    distance_sq, get_neighbors, in_reach, is_diagonal, local_tile_pos_to_rounded_tile,
    rounded_chunk_pos_to_rounded_tile, rounded_tile_pos_to_rounded_chunk, TilePos, CHUNK_SIZE,
};

fn tile(x: i32, y: i32) -> TilePos {
    TilePos { x, y }
}

#[test]
fn neighbors_are_the_eight_surrounding_tiles() {
    let n = get_neighbors(tile(2, 3));
    assert_eq!(n.len(), 8);
    for t in &n {
        assert!(*t != tile(2, 3));
        assert!((t.x - 2).abs() <= 1 && (t.y - 3).abs() <= 1);
    }
    // All eight are distinct.
    for i in 0..n.len() {
        for j in (i + 1)..n.len() {
            assert!(n[i] != n[j]);
        }
    }
}

#[test]
fn diagonal_and_reach_predicates() {
    assert!(is_diagonal(tile(0, 0), tile(1, 1)));
    assert!(!is_diagonal(tile(0, 0), tile(1, 0)));
    assert!(!is_diagonal(tile(0, 0), tile(2, 2)));
    assert!(in_reach(tile(0, 0), tile(1, 1)));
    assert!(in_reach(tile(0, 0), tile(0, 0)));
    assert!(!in_reach(tile(0, 0), tile(2, 0)));
}

#[test]
fn squared_distance_matches_formula() {
    assert_eq!(distance_sq(tile(0, 0), tile(3, 4)), 25);
    assert_eq!(distance_sq(tile(-2, 1), tile(1, -3)), 25);
    assert_eq!(distance_sq(tile(5, 5), tile(5, 5)), 0);
}

#[test]
fn chunk_conversions() {
    let chunk = tile(2, -1);
    let origin = rounded_chunk_pos_to_rounded_tile(&chunk);
    assert_eq!(origin, tile(64, -32));
    let local = tile(5, 7);
    let world_tile = local_tile_pos_to_rounded_tile(local, chunk);
    assert_eq!(world_tile, tile(69, -25));
    assert_eq!(CHUNK_SIZE, 32);
    // Division truncates toward zero, as the world code always did.
    assert_eq!(rounded_tile_pos_to_rounded_chunk(tile(69, -25)), tile(2, 0));
    assert_eq!(rounded_tile_pos_to_rounded_chunk(tile(-33, 33)), tile(-1, 1));
}

#[test]
fn structures_block_their_tile_only() {
    let mut m = StructureManager::new();
    assert!(is_tile_passable(tile(0, 0), &m));
    m.register_structure(tile(0, 0), 5);
    assert!(!is_tile_passable(tile(0, 0), &m));
    assert!(is_tile_passable(tile(1, 0), &m));
    // Re-registering replaces; unregistering frees the tile again.
    m.register_structure(tile(0, 0), 6);
    assert_eq!(m.unregister_structure(tile(0, 0)), Some(6));
    assert!(is_tile_passable(tile(0, 0), &m));
    assert_eq!(m.unregister_structure(tile(0, 0)), None);
}

#[test]
fn chunk_registry_tracks_spawned_chunks() {
    let mut c = ChunkManager::new();
    assert!(!c.contains_chunk(tile(0, 0)));
    c.insert_chunk(tile(0, 0), 11);
    assert!(c.contains_chunk(tile(0, 0)));
    assert!(!c.contains_chunk(tile(1, 0)));
}
