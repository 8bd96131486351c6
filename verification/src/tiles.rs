//! Tile coordinates: the integer 2D lattice that passability, pathfinding and
//! movement reason over, and the conversions between tile and chunk space.
use vstd::prelude::*;

verus! {

/// Tiles per chunk side.
pub const CHUNK_SIZE: u32 = 32;

/// A cell of the discrete world grid.
#[derive(Clone, Copy, Debug, Hash, PartialEq, Eq, Structural)]
pub struct TilePos {
    pub x: i32,
    pub y: i32,
}

/// Difference of the x coordinates, as a mathematical integer.
pub open spec fn dx(a: TilePos, b: TilePos) -> int {
    a.x as int - b.x as int
}

/// Difference of the y coordinates, as a mathematical integer.
pub open spec fn dy(a: TilePos, b: TilePos) -> int {
    a.y as int - b.y as int
}

/// Squared Euclidean distance between two tiles.
pub open spec fn dist_sq(a: TilePos, b: TilePos) -> int {
    dx(a, b) * dx(a, b) + dy(a, b) * dy(a, b)
}

/// The tiles differ and each coordinate differs by at most one: `b` is one of
/// the eight neighbours of `a`.
pub open spec fn adjacent8(a: TilePos, b: TilePos) -> bool {
    &&& a != b
    &&& -1 <= dx(a, b) <= 1
    &&& -1 <= dy(a, b) <= 1
}

/// Both coordinates differ by exactly one: a diagonal step.
pub open spec fn diagonal_step(a: TilePos, b: TilePos) -> bool {
    &&& (dx(a, b) == 1 || dx(a, b) == -1)
    &&& (dy(a, b) == 1 || dy(a, b) == -1)
}

/// Whether an agent standing on `a` can interact with something on `b`:
/// the Euclidean distance, rounded down, is at most one tile, which on the
/// integer lattice is exactly a Chebyshev distance of at most one.
pub open spec fn within_reach(a: TilePos, b: TilePos) -> bool {
    &&& -1 <= dx(a, b) <= 1
    &&& -1 <= dy(a, b) <= 1
}

/// Whether two tiles are diagonal neighbours.
pub fn is_diagonal(from: TilePos, to: TilePos) -> (r: bool)
    ensures
        r == diagonal_step(from, to),
{
    let ddx = from.x as i64 - to.x as i64;
    let ddy = from.y as i64 - to.y as i64;
    (ddx == 1 || ddx == -1) && (ddy == 1 || ddy == -1)
}

/// Whether `b` is within interaction reach of `a`.
pub fn in_reach(a: TilePos, b: TilePos) -> (r: bool)
    ensures
        r == within_reach(a, b),
{
    let ddx = a.x as i64 - b.x as i64;
    let ddy = a.y as i64 - b.y as i64;
    -1 <= ddx && ddx <= 1 && -1 <= ddy && ddy <= 1
}

/// Squared distance between two tiles, used to compare distances without
/// taking square roots (squaring preserves the ordering).
pub fn distance_sq(a: TilePos, b: TilePos) -> (d: u128)
    ensures
        d == dist_sq(a, b),
{
    let ddx = a.x as i128 - b.x as i128;
    let ddy = a.y as i128 - b.y as i128;
    proof {
        assert(0 <= ddx * ddx <= 0x1_0000_0000_0000_0000) by (nonlinear_arith)
            requires
                -0x1_0000_0000 <= ddx <= 0x1_0000_0000,
        ;
        assert(0 <= ddy * ddy <= 0x1_0000_0000_0000_0000) by (nonlinear_arith)
            requires
                -0x1_0000_0000 <= ddy <= 0x1_0000_0000,
        ;
    }
    let sx = ddx * ddx;
    let sy = ddy * ddy;
    (sx + sy) as u128
}

/// Scan position of the cell holding `t` in the fixed 3-by-3 walk around
/// `pos` (columns west to east, rows south to north).
pub open spec fn neighbor_cell(pos: TilePos, t: TilePos) -> int {
    (dx(t, pos) + 1) * 3 + (dy(t, pos) + 1)
}

/// The tiles around `pos`: every tile adjacent to it, in a fixed scan order.
/// A neighbour whose coordinate would leave the representable range does not
/// exist as a tile and is skipped, so away from that edge there are exactly
/// eight.
pub fn get_neighbors(pos: TilePos) -> (r: Vec<TilePos>)
    ensures
        r@.len() <= 8,
        forall|i: int| 0 <= i < r@.len() ==> adjacent8(pos, #[trigger] r@[i]),
        forall|t: TilePos| adjacent8(pos, t) ==> r@.contains(t),
{
    let mut out: Vec<TilePos> = Vec::new();
    let xs: [i64; 3] = [-1, 0, 1];
    let mut i: usize = 0;
    while i < 3
        invariant
            i <= 3,
            out@.len() <= (if 3 * i > 4 { 3 * i - 1 } else { 3 * i as int }),
            forall|j: int| 0 <= j < out@.len() ==> adjacent8(pos, #[trigger] out@[j]),
            forall|t: TilePos|
                adjacent8(pos, t) && neighbor_cell(pos, t) < 3 * i ==> out@.contains(t),
        decreases 3 - i,
    {
        let ddx = xs[i];
        let mut j: usize = 0;
        while j < 3
            invariant
                i < 3,
                j <= 3,
                out@.len() <= (if 3 * i + j > 4 { 3 * i + j - 1 } else { 3 * i + j as int }),
                ddx == xs@[i as int],
                forall|k: int| 0 <= k < out@.len() ==> adjacent8(pos, #[trigger] out@[k]),
                forall|t: TilePos|
                    adjacent8(pos, t) && neighbor_cell(pos, t) < 3 * i + j ==> out@.contains(t),
            decreases 3 - j,
        {
            let ddy = xs[j];
            let ghost out_before = out@;
            if ddx != 0 || ddy != 0 {
                let nx = pos.x as i64 + ddx;
                let ny = pos.y as i64 + ddy;
                if i32::MIN as i64 <= nx && nx <= i32::MAX as i64 && i32::MIN as i64 <= ny && ny
                    <= i32::MAX as i64 {
                    out.push(TilePos { x: nx as i32, y: ny as i32 });
                }
            }
            proof {
                assert forall|t: TilePos|
                    adjacent8(pos, t) && neighbor_cell(pos, t) < 3 * i + j + 1 implies out@.contains(
                    t,
                ) by {
                    if neighbor_cell(pos, t) < 3 * i + j {
                        // Carried over: pushing keeps every earlier element.
                        if out_before.contains(t) {
                            let w = choose|w: int| 0 <= w < out_before.len() && out_before[w] == t;
                            assert(out@[w] == t);
                        }
                    } else {
                        // This very cell: the scanned offset is exactly the
                        // offset of `t`, whose coordinates are representable,
                        // so the tile just pushed is `t` itself.
                        assert(dx(t, pos) + 1 == i && dy(t, pos) + 1 == j);
                        assert(out@.last() == t);
                    }
                }
            }
            j += 1;
        }
        i += 1;
    }
    out
}

/// Tile coordinate of a tile local to a chunk, given the chunk coordinate.
pub fn local_tile_pos_to_rounded_tile(local_tile_pos: TilePos, rounded_chunk_pos: TilePos) -> (r:
    TilePos)
    requires
        i32::MIN <= rounded_chunk_pos.x as int * CHUNK_SIZE + local_tile_pos.x <= i32::MAX,
        i32::MIN <= rounded_chunk_pos.y as int * CHUNK_SIZE + local_tile_pos.y <= i32::MAX,
    ensures
        r.x == rounded_chunk_pos.x as int * CHUNK_SIZE + local_tile_pos.x,
        r.y == rounded_chunk_pos.y as int * CHUNK_SIZE + local_tile_pos.y,
{
    let x = rounded_chunk_pos.x as i64 * CHUNK_SIZE as i64 + local_tile_pos.x as i64;
    let y = rounded_chunk_pos.y as i64 * CHUNK_SIZE as i64 + local_tile_pos.y as i64;
    TilePos { x: x as i32, y: y as i32 }
}

/// Tile coordinate of a chunk's origin corner.
pub fn rounded_chunk_pos_to_rounded_tile(rounded_chunk_pos: &TilePos) -> (r: TilePos)
    requires
        i32::MIN <= rounded_chunk_pos.x as int * CHUNK_SIZE <= i32::MAX,
        i32::MIN <= rounded_chunk_pos.y as int * CHUNK_SIZE <= i32::MAX,
    ensures
        r.x == rounded_chunk_pos.x as int * CHUNK_SIZE,
        r.y == rounded_chunk_pos.y as int * CHUNK_SIZE,
{
    let x = rounded_chunk_pos.x as i64 * CHUNK_SIZE as i64;
    let y = rounded_chunk_pos.y as i64 * CHUNK_SIZE as i64;
    TilePos { x: x as i32, y: y as i32 }
}

/// Chunk coordinate a tile falls in, by division truncating toward zero.
pub fn rounded_tile_pos_to_rounded_chunk(rounded_tile_pos: TilePos) -> (r: TilePos)
    ensures
        r.x == trunc_div(rounded_tile_pos.x as int, CHUNK_SIZE as int),
        r.y == trunc_div(rounded_tile_pos.y as int, CHUNK_SIZE as int),
{
    TilePos { x: rounded_tile_pos.x / CHUNK_SIZE as i32, y: rounded_tile_pos.y / CHUNK_SIZE as i32 }
}

/// Integer division truncating toward zero, as Rust's `/` computes it.
pub open spec fn trunc_div(a: int, b: int) -> int {
    if a >= 0 {
        a / b
    } else {
        -((-a) / b)
    }
}

} // verus!
