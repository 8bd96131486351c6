//! The grid pathfinder: weighted A* over the 8-connected tile grid with
//! diagonal-corner-cutting prevention, a bounded expansion budget with a
//! best-effort partial path on exhaustion, and nearest-passable-tile
//! substitution when the literal goal is blocked.
//!
//! Costs and the heuristic are kept in integer tenths of a tile: an
//! orthogonal step costs 10, a diagonal step 14, and the heuristic is the
//! Euclidean distance times ten, rounded down.
use vstd::prelude::*;
use crate::map::StructureManager;
use crate::tiles::{TilePos, adjacent8, diagonal_step, dist_sq, dx, dy};
use crate::tiles::{distance_sq, get_neighbors, is_diagonal};
use crate::units::Direction;
use std::collections::VecDeque;

verus! {

/// Cost of an orthogonal step, in tenths of a tile.
pub const ORTHO_COST: u64 = 10;

/// Cost of a diagonal step, in tenths of a tile.
pub const DIAG_COST: u64 = 14;

/// Node expansions granted to every search.
pub const BASE_LIMIT: u64 = 500;

/// Extra expansions granted per tile of heuristic distance to the goal.
pub const PER_TILE_LIMIT: u64 = 40;

/// Absolute ceiling on node expansions.
pub const MAX_LIMIT: u64 = 20000;

/// The square root of `n`, rounded down (zero for negative arguments).
pub open spec fn sqrt_floor(n: int) -> int
    decreases n,
{
    if n <= 0 {
        0
    } else {
        let r = sqrt_floor(n - 1);
        if (r + 1) * (r + 1) <= n {
            r + 1
        } else {
            r
        }
    }
}

/// `sqrt_floor` is the unique value whose square brackets `n`.
pub proof fn lemma_sqrt_floor_bounds(n: int)
    requires
        n >= 0,
    ensures
        sqrt_floor(n) >= 0,
        sqrt_floor(n) * sqrt_floor(n) <= n,
        n < (sqrt_floor(n) + 1) * (sqrt_floor(n) + 1),
    decreases n,
{
    if n == 0 {
    } else {
        lemma_sqrt_floor_bounds(n - 1);
        let r = sqrt_floor(n - 1);
        if (r + 1) * (r + 1) <= n {
            assert(n - 1 < (r + 1) * (r + 1));
            assert(n < (r + 2) * (r + 2)) by (nonlinear_arith)
                requires
                    r >= 0,
                    n <= (r + 1) * (r + 1),
            ;
        }
    }
}

/// Any value whose square brackets `n` is `sqrt_floor(n)`.
pub proof fn lemma_sqrt_floor_unique(n: int, r: int)
    requires
        0 <= r,
        r * r <= n,
        n < (r + 1) * (r + 1),
    ensures
        r == sqrt_floor(n),
{
    lemma_sqrt_floor_bounds(n);
    let s = sqrt_floor(n);
    assert(r == s) by (nonlinear_arith)
        requires
            0 <= r,
            0 <= s,
            r * r <= n,
            n < (r + 1) * (r + 1),
            s * s <= n,
            n < (s + 1) * (s + 1),
    ;
}

/// The heuristic the search orders nodes by: the Euclidean distance between
/// the tiles, in tenths of a tile, rounded down.
pub open spec fn h_spec(a: TilePos, b: TilePos) -> int {
    sqrt_floor(100 * dist_sq(a, b))
}

/// Square root of `n`, rounded down, by bisection.
fn isqrt(n: u128) -> (r: u64)
    ensures
        r == sqrt_floor(n as int),
{
    let mut lo: u128 = 0;
    let mut hi: u128 = 0x1_0000_0000_0000_0000;
    proof {
        assert((0x1_0000_0000_0000_0000u128 as int) * (0x1_0000_0000_0000_0000u128 as int) > n
            as int) by (nonlinear_arith)
            requires
                n <= u128::MAX,
        ;
    }
    while hi - lo > 1
        invariant
            lo < hi <= 0x1_0000_0000_0000_0000,
            lo * lo <= n,
            (n as int) < (hi as int) * (hi as int),
        decreases hi - lo,
    {
        let mid = lo + (hi - lo) / 2;
        proof {
            assert((mid as int) * (mid as int) <= (u128::MAX as int)) by (nonlinear_arith)
                requires
                    mid < 0x1_0000_0000_0000_0000,
            ;
        }
        if mid * mid <= n {
            lo = mid;
        } else {
            hi = mid;
        }
    }
    proof {
        lemma_sqrt_floor_unique(n as int, lo as int);
        assert(lo < 0x1_0000_0000_0000_0000);
    }
    lo as u64
}

/// The heuristic, executable: ten times the Euclidean distance, rounded down.
pub fn heuristic(a: TilePos, b: TilePos) -> (h: u64)
    ensures
        h == h_spec(a, b),
        h <= 0x20_0000_0000,
{
    let d2 = distance_sq(a, b);
    proof {
        assert(dist_sq(a, b) <= 0x2_0000_0000_0000_0000) by (nonlinear_arith)
            requires
                -0x1_0000_0000 <= dx(a, b) <= 0x1_0000_0000,
                -0x1_0000_0000 <= dy(a, b) <= 0x1_0000_0000,
                dist_sq(a, b) == dx(a, b) * dx(a, b) + dy(a, b) * dy(a, b),
        ;
    }
    let n = 100 * d2;
    let r = isqrt(n);
    proof {
        lemma_sqrt_floor_bounds(n as int);
        assert(sqrt_floor(n as int) <= 0x20_0000_0000) by (nonlinear_arith)
            requires
                n <= 0xc8_0000_0000_0000_0000,
                sqrt_floor(n as int) >= 0,
                sqrt_floor(n as int) * sqrt_floor(n as int) <= n,
        ;
    }
    r
}

/// The sign of `v`: 1, -1 or 0.
pub open spec fn sign(v: int) -> int {
    if v > 0 {
        1
    } else if v < 0 {
        -1
    } else {
        0
    }
}

/// The offsets the ring scan tries, in priority order, given the approach
/// direction from start to target: first directly opposite the approach,
/// then perpendicular to it, then the diagonals, and the approach direction
/// itself as last resort.
pub open spec fn scan_dirs(ax: int, ay: int) -> Seq<(int, int)> {
    let s0 = Seq::<(int, int)>::empty();
    let s1 = if ax != 0 || ay != 0 {
        s0.push((-ax, -ay))
    } else {
        s0
    };
    let s2 = if ax != 0 {
        s1.push((0, 1)).push((0, -1))
    } else {
        s1
    };
    let s3 = if ay != 0 {
        s2.push((1, 0)).push((-1, 0))
    } else {
        s2
    };
    let s4 = s3.push((-1, -1)).push((1, -1)).push((-1, 1)).push((1, 1));
    if ax != 0 || ay != 0 {
        s4.push((ax, ay))
    } else {
        s4
    }
}

/// Every candidate tile of the ring scan around `target`, approached from
/// `start`: radius 1 through 5, each radius trying the offsets of
/// `scan_dirs` in order. Coordinates are exact integers and may fall outside
/// the representable tile range.
pub open spec fn ring_candidates(target: TilePos, start: TilePos) -> Seq<(int, int)> {
    let ax = sign(target.x as int - start.x as int);
    let ay = sign(target.y as int - start.y as int);
    let dirs = scan_dirs(ax, ay);
    Seq::new(
        (5 * dirs.len()) as nat,
        |i: int|
            {
                let radius = i / dirs.len() as int + 1;
                let d = dirs[i % dirs.len() as int];
                (target.x as int + d.0 * radius, target.y as int + d.1 * radius)
            },
    )
}

/// Whether a ring-scan candidate is usable: its coordinates are representable
/// and the tile is passable.
pub open spec fn cand_ok(m: StructureManager, c: (int, int)) -> bool {
    &&& i32::MIN <= c.0 <= i32::MAX
    &&& i32::MIN <= c.1 <= i32::MAX
    &&& m.is_passable_spec(TilePos { x: c.0 as i32, y: c.1 as i32 })
}

/// The first usable candidate at or after position `i`, if any.
pub open spec fn first_ok_from(m: StructureManager, cands: Seq<(int, int)>, i: int) -> Option<int>
    decreases cands.len() - i
        when 0 <= i <= cands.len()
{
    if i < 0 || i >= cands.len() {
        None
    } else if cand_ok(m, cands[i]) {
        Some(i)
    } else {
        first_ok_from(m, cands, i + 1)
    }
}

/// Scanning from the very start finds `i` when nothing before `i` is usable.
proof fn lemma_first_ok_prefix(m: StructureManager, cands: Seq<(int, int)>, i: int)
    requires
        0 <= i <= cands.len(),
        forall|j: int| 0 <= j < i ==> !cand_ok(m, cands[j]),
    ensures
        first_ok_from(m, cands, 0) == first_ok_from(m, cands, i),
    decreases i,
{
    if i > 0 {
        lemma_first_ok_prefix(m, cands, i - 1);
    }
}

/// The tile a blocked goal is replaced by, if the ring scan finds one.
pub open spec fn ring_substitute(m: StructureManager, target: TilePos, start: TilePos) -> Option<
    TilePos,
> {
    match first_ok_from(m, ring_candidates(target, start), 0) {
        Some(j) => {
            let c = ring_candidates(target, start)[j];
            Some(TilePos { x: c.0 as i32, y: c.1 as i32 })
        },
        None => None,
    }
}

/// The tile the search actually routes to: the goal itself when passable,
/// else the ring-scan substitute, else the start tile (a no-op search).
pub open spec fn resolved_goal(m: StructureManager, start: TilePos, goal: TilePos) -> TilePos {
    if m.is_passable_spec(goal) {
        goal
    } else {
        match ring_substitute(m, goal, start) {
            Some(t) => t,
            None => start,
        }
    }
}

/// Find the passable tile nearest to `target` by scanning outward in rings of
/// radius 1 through 5, trying offsets in priority order: opposite the
/// approach direction from `start` first, then perpendicular to it, then the
/// diagonals, then the approach direction itself.
pub fn find_nearest_passable_tile(
    target: TilePos,
    start: TilePos,
    structure_manager: &StructureManager,
) -> (r: Option<TilePos>)
    requires
        structure_manager.wf(),
    ensures
        r == ring_substitute(*structure_manager, target, start),
{
    let ghost cands = ring_candidates(target, start);
    let ax: i64 = if target.x as i64 > start.x as i64 {
        1
    } else if (target.x as i64) < start.x as i64 {
        -1
    } else {
        0
    };
    let ay: i64 = if target.y as i64 > start.y as i64 {
        1
    } else if (target.y as i64) < start.y as i64 {
        -1
    } else {
        0
    };
    let mut dirs: Vec<(i64, i64)> = Vec::new();
    if ax != 0 || ay != 0 {
        dirs.push((-ax, -ay));
    }
    if ax != 0 {
        dirs.push((0, 1));
        dirs.push((0, -1));
    }
    if ay != 0 {
        dirs.push((1, 0));
        dirs.push((-1, 0));
    }
    dirs.push((-1, -1));
    dirs.push((1, -1));
    dirs.push((-1, 1));
    dirs.push((1, 1));
    if ax != 0 || ay != 0 {
        dirs.push((ax, ay));
    }
    let ghost sdirs = scan_dirs(sign(target.x as int - start.x as int), sign(
        target.y as int - start.y as int,
    ));
    proof {
        assert(dirs@.len() == sdirs.len());
        assert(forall|k: int|
            0 <= k < sdirs.len() ==> (#[trigger] sdirs[k]).0 == dirs@[k].0 as int && sdirs[k].1
                == dirs@[k].1 as int);
        assert(cands.len() == 5 * sdirs.len());
    }
    let dirs_len = dirs.len();
    let mut radius: i64 = 1;
    while radius <= 5
        invariant
            1 <= radius <= 6,
            dirs@.len() == sdirs.len(),
            4 <= dirs@.len() <= 10,
            forall|k: int|
                0 <= k < sdirs.len() ==> (#[trigger] sdirs[k]).0 == dirs@[k].0 as int && sdirs[k].1
                    == dirs@[k].1 as int,
            forall|k: int| 0 <= k < dirs@.len() ==> -1 <= (#[trigger] dirs@[k]).0 <= 1 && -1
                <= dirs@[k].1 <= 1,
            cands.len() == 5 * sdirs.len(),
            forall|j: int|
                0 <= j < (radius - 1) * dirs@.len() as int ==> !cand_ok(
                    *structure_manager,
                    #[trigger] cands[j],
                ),
        decreases 6 - radius,
    {
        let mut k: usize = 0;
        while k < dirs_len
            invariant
                1 <= radius <= 5,
                0 <= k <= dirs_len,
                dirs_len == dirs@.len(),
                dirs@.len() == sdirs.len(),
                4 <= dirs@.len() <= 10,
                forall|j: int|
                    0 <= j < sdirs.len() ==> (#[trigger] sdirs[j]).0 == dirs@[j].0 as int
                        && sdirs[j].1 == dirs@[j].1 as int,
                forall|j: int| 0 <= j < dirs@.len() ==> -1 <= (#[trigger] dirs@[j]).0 <= 1 && -1
                    <= dirs@[j].1 <= 1,
                cands.len() == 5 * sdirs.len(),
                forall|j: int|
                    0 <= j < (radius - 1) * dirs@.len() as int + k ==> !cand_ok(
                        *structure_manager,
                        #[trigger] cands[j],
                    ),
            decreases dirs_len - k,
        {
            let d = dirs[k];
            proof {
                assert(-5 <= d.0 * radius <= 5 && -5 <= d.1 * radius <= 5) by (nonlinear_arith)
                    requires
                        -1 <= d.0 <= 1,
                        -1 <= d.1 <= 1,
                        1 <= radius <= 5,
                ;
            }
            let cx = target.x as i64 + d.0 * radius;
            let cy = target.y as i64 + d.1 * radius;
            let ghost idx = (radius - 1) * dirs@.len() as int + k;
            proof {
                let l = dirs@.len() as int;
                assert(0 <= idx && idx < 5 * l) by (nonlinear_arith)
                    requires
                        1 <= radius <= 5,
                        0 <= k < l,
                        idx == (radius - 1) * l + k,
                ;
                vstd::arithmetic::div_mod::lemma_fundamental_div_mod_converse(
                    idx,
                    l,
                    radius - 1,
                    k as int,
                );
                assert(cands[idx].0 == target.x as int + sdirs[k as int].0 * (radius as int));
                assert(cands[idx].1 == target.y as int + sdirs[k as int].1 * (radius as int));
            }
            if i32::MIN as i64 <= cx && cx <= i32::MAX as i64 && i32::MIN as i64 <= cy && cy
                <= i32::MAX as i64 {
                let cand = TilePos { x: cx as i32, y: cy as i32 };
                if crate::map::is_tile_passable(cand, structure_manager) {
                    proof {
                        assert(cand_ok(*structure_manager, cands[idx]));
                        lemma_first_ok_prefix(*structure_manager, cands, idx);
                        assert(first_ok_from(*structure_manager, cands, idx) == Some(idx));
                    }
                    return Some(cand);
                }
            }
            proof {
                assert(!cand_ok(*structure_manager, cands[idx]));
            }
            k += 1;
        }
        proof {
            assert((radius - 1) * dirs@.len() as int + dirs@.len() as int == ((radius + 1) - 1)
                * dirs@.len() as int) by (nonlinear_arith);
        }
        radius += 1;
    }
    proof {
        assert(5 * dirs@.len() as int == (6 - 1) * dirs@.len() as int);
        lemma_first_ok_prefix(*structure_manager, cands, cands.len() as int);
    }
    None
}


/// A legal move of the search: to an adjacent passable tile, and diagonally
/// only when the two orthogonal corner tiles beside the move are not both
/// blocked (which would mean cutting through a solid corner).
pub open spec fn step_ok(m: StructureManager, from: TilePos, to: TilePos) -> bool {
    &&& adjacent8(from, to)
    &&& m.is_passable_spec(to)
    &&& diagonal_step(from, to) ==> (m.is_passable_spec(TilePos { x: from.x, y: to.y })
        || m.is_passable_spec(TilePos { x: to.x, y: from.y }))
}

/// What `find_path` promises of a returned list of tiles: it starts at
/// `start` and every consecutive pair is a legal move, so in particular every
/// tile after the first is passable.
pub open spec fn valid_path(m: StructureManager, p: Seq<TilePos>, start: TilePos) -> bool {
    &&& p.len() >= 1
    &&& p[0] == start
    &&& forall|i: int| 0 <= i < p.len() - 1 ==> step_ok(m, p[i], #[trigger] p[i + 1])
}

/// In a valid path whose start tile is itself passable, every tile is
/// passable: each later tile is entered by a legal step.
proof fn lemma_valid_path_passable(m: StructureManager, p: Seq<TilePos>, start: TilePos)
    requires
        valid_path(m, p, start),
        m.is_passable_spec(start),
    ensures
        forall|i: int| 0 <= i < p.len() ==> m.is_passable_spec(#[trigger] p[i]),
{
    assert forall|i: int| 0 <= i < p.len() implies m.is_passable_spec(#[trigger] p[i]) by {
        if i > 0 {
            assert(step_ok(m, p[i - 1], p[(i - 1) + 1]));
        }
    }
}

/// A search node: its tile, accumulated cost from the start, heuristic
/// estimate to the goal, and the node it was reached from.
struct PathNode {
    pos: TilePos,
    g_cost: u64,
    h_cost: u64,
    parent: Option<usize>,
}

/// The search's working invariant. Nodes are only appended, each pointing at
/// an earlier parent it was legally reached from, so any parent chain is a
/// valid path from the start; heuristic fields are exact and costs bounded.
spec fn wf_nodes(nodes: Seq<PathNode>, m: StructureManager, start: TilePos, goal: TilePos) -> bool {
    &&& nodes.len() >= 1
    &&& nodes[0].pos == start
    &&& forall|i: int| 0 <= i < nodes.len() ==> (((#[trigger] nodes[i]).parent is None) <==> i == 0)
    &&& forall|i: int|
        1 <= i < nodes.len() ==> {
            let p = (#[trigger] nodes[i]).parent->0 as int;
            &&& 0 <= p < i
            &&& step_ok(m, nodes[p].pos, nodes[i].pos)
        }
    &&& forall|i: int|
        0 <= i < nodes.len() ==> (#[trigger] nodes[i]).h_cost == h_spec(nodes[i].pos, goal)
    &&& forall|i: int| 0 <= i < nodes.len() ==> (#[trigger] nodes[i]).g_cost <= 14 * (i + 1)
    &&& forall|i: int| 0 <= i < nodes.len() ==> (#[trigger] nodes[i]).h_cost <= 0x20_0000_0000
}

/// Walk the parent chain from `idx` back to the start and return the tiles
/// in forward order.
fn reconstruct_path(
    nodes: &Vec<PathNode>,
    idx: usize,
    Ghost(m): Ghost<StructureManager>,
    Ghost(start): Ghost<TilePos>,
    Ghost(goal): Ghost<TilePos>,
) -> (p: Vec<TilePos>)
    requires
        wf_nodes(nodes@, m, start, goal),
        idx < nodes@.len(),
    ensures
        valid_path(m, p@, start),
        p@.last() == nodes@[idx as int].pos,
{
    let mut rev: Vec<TilePos> = Vec::new();
    let mut cur: usize = idx;
    rev.push(nodes[cur].pos);
    while nodes[cur].parent.is_some()
        invariant
            cur < nodes@.len(),
            rev@.len() >= 1,
            rev@[0] == nodes@[idx as int].pos,
            rev@.last() == nodes@[cur as int].pos,
            forall|j: int| 0 <= j < rev@.len() - 1 ==> step_ok(m, rev@[j + 1], #[trigger] rev@[j]),
        decreases cur,
    {
        let p = nodes[cur].parent.unwrap();
        cur = p;
        rev.push(nodes[cur].pos);
    }
    proof {
        assert(cur == 0);
        assert(rev@.last() == start);
    }
    let ghost rev0 = rev@;
    let mut p: Vec<TilePos> = Vec::new();
    while rev.len() > 0
        invariant
            p@.len() + rev@.len() == rev0.len(),
            rev@ == rev0.take(rev@.len() as int),
            forall|j: int| 0 <= j < p@.len() ==> #[trigger] p@[j] == rev0[rev0.len() - 1 - j],
        decreases rev@.len(),
    {
        proof {
            assert(rev@.last() == rev0[rev@.len() - 1]);
        }
        let t = rev.pop().unwrap();
        p.push(t);
        proof {
            assert(rev@ =~= rev0.take(rev@.len() as int));
        }
    }
    proof {
        assert(p@[0] == rev0[rev0.len() - 1]);
        assert(p@.last() == rev0[0]);
        assert forall|i: int| 0 <= i < p@.len() - 1 implies step_ok(m, p@[i], #[trigger] p@[i + 1]) by {
            assert(p@[i] == rev0[rev0.len() - 1 - i]);
            assert(p@[i + 1] == rev0[rev0.len() - 1 - (i + 1)]);
            assert(step_ok(m, rev0[(rev0.len() - 2 - i) + 1], rev0[rev0.len() - 2 - i]));
        }
    }
    p
}

/// The node index recorded for `pos`, with its position in `best`, if any.
fn lookup_best(best: &Vec<(TilePos, usize)>, pos: TilePos) -> (r: Option<(usize, usize)>)
    ensures
        match r {
            Some(pair) => 0 <= pair.0 < best@.len() && best@[pair.0 as int] == (pos, pair.1),
            None => true,
        },
{
    let mut b: usize = 0;
    while b < best.len()
        invariant
            b <= best@.len(),
        decreases best@.len() - b,
    {
        if best[b].0 == pos {
            let node_idx = best[b].1;
            return Some((b, node_idx));
        }
        b += 1;
    }
    None
}

/// Whether the search has already recorded a node for `t`.
spec fn discovered(best: Seq<(TilePos, usize)>, t: TilePos) -> bool {
    exists|j: int| 0 <= j < best.len() && (#[trigger] best[j]).0 == t
}

/// Whether some corner-safe passable route leads from `start` to `goal`.
pub open spec fn route_exists(m: StructureManager, start: TilePos, goal: TilePos) -> bool {
    exists|p: Seq<TilePos>| #[trigger] valid_path(m, p, start) && p.last() == goal
}

/// Appending a position record keeps everything discovered and adds its tile.
proof fn lemma_discovered_push(best: Seq<(TilePos, usize)>, e: (TilePos, usize))
    ensures
        forall|t: TilePos| discovered(best, t) ==> discovered(best.push(e), t),
        discovered(best.push(e), e.0),
{
    assert forall|t: TilePos| discovered(best, t) implies discovered(best.push(e), t) by {
        let w = choose|w: int| 0 <= w < best.len() && best[w].0 == t;
        assert(best.push(e)[w].0 == t);
    }
    assert(best.push(e)[best.len() as int].0 == e.0);
}

/// Re-pointing a position record at a new node keeps the discovered tiles.
proof fn lemma_discovered_update_same(best: Seq<(TilePos, usize)>, i: int, e: (TilePos, usize))
    requires
        0 <= i < best.len(),
        best[i].0 == e.0,
    ensures
        forall|t: TilePos| discovered(best.update(i, e), t) == discovered(best, t),
{
    assert forall|t: TilePos| discovered(best.update(i, e), t) == discovered(best, t) by {
        if discovered(best, t) {
            let w = choose|w: int| 0 <= w < best.len() && best[w].0 == t;
            assert(best.update(i, e)[w].0 == t);
        }
        if discovered(best.update(i, e), t) {
            let w = choose|w: int| 0 <= w < best.len() && best.update(i, e)[w].0 == t;
            assert(best[w].0 == t);
        }
    }
}

/// A discovered set closed under legal steps traps every valid path that
/// starts inside it: the path's last tile is discovered too.
proof fn lemma_closed_set_traps_paths(
    m: StructureManager,
    best: Seq<(TilePos, usize)>,
    p: Seq<TilePos>,
    start: TilePos,
)
    requires
        valid_path(m, p, start),
        discovered(best, start),
        forall|a: TilePos, b: TilePos|
            discovered(best, a) && #[trigger] step_ok(m, a, b) ==> discovered(best, b),
    ensures
        discovered(best, p.last()),
    decreases p.len(),
{
    if p.len() == 1 {
        assert(p.last() == start);
    } else {
        let q = p.drop_last();
        assert(valid_path(m, q, start)) by {
            assert(q[0] == p[0]);
            assert forall|i: int| 0 <= i < q.len() - 1 implies step_ok(m, q[i], #[trigger] q[i
                + 1]) by {
                assert(q[i] == p[i] && q[i + 1] == p[i + 1]);
                assert(step_ok(m, p[i], p[i + 1]));
            }
        }
        lemma_closed_set_traps_paths(m, best, q, start);
        assert(q.last() == p[p.len() - 2]);
        assert(step_ok(m, p[p.len() - 2], p[(p.len() - 2) + 1]));
    }
}

/// Record that `npos` was reached from the node at `cur_idx` for `move_cost`
/// more: a tile seen before is re-recorded only when the new route is
/// cheaper; a new tile is added to the position index. Either way the tile
/// ends up discovered and, when (re-)recorded, queued on the open list.
#[verifier::rlimit(100)]
#[verifier::spinoff_prover]
fn record_neighbor(
    nodes: &mut Vec<PathNode>,
    best: &mut Vec<(TilePos, usize)>,
    open: &mut Vec<usize>,
    cur_idx: usize,
    npos: TilePos,
    move_cost: u64,
    actual_end: TilePos,
    Ghost(m): Ghost<StructureManager>,
    Ghost(start_grid): Ghost<TilePos>,
    Ghost(expanded): Ghost<Set<TilePos>>,
)
    requires
        wf_nodes(old(nodes)@, m, start_grid, actual_end),
        old(nodes)@.len() <= 180009,
        cur_idx < old(nodes)@.len(),
        step_ok(m, old(nodes)@[cur_idx as int].pos, npos),
        move_cost == ORTHO_COST || move_cost == DIAG_COST,
        forall|j: int| 0 <= j < old(open)@.len() ==> #[trigger] old(open)@[j] < old(nodes)@.len(),
        forall|j: int|
            0 <= j < old(best)@.len() ==> (#[trigger] old(best)@[j]).1 < old(nodes)@.len(),
        forall|t: TilePos|
            #[trigger] discovered(old(best)@, t) ==> expanded.contains(t) || t == old(nodes)@[cur_idx as int].pos || exists|oi: int|
                0 <= oi < old(open)@.len() && old(nodes)@[#[trigger] old(open)@[oi] as int].pos
                    == t,
    ensures
        wf_nodes(final(nodes)@, m, start_grid, actual_end),
        old(nodes)@.len() <= final(nodes)@.len() <= old(nodes)@.len() + 1,
        final(nodes)@[cur_idx as int] == old(nodes)@[cur_idx as int],
        forall|j: int| 0 <= j < final(open)@.len() ==> #[trigger] final(open)@[j] < final(nodes)@.len(),
        forall|j: int|
            0 <= j < final(best)@.len() ==> (#[trigger] final(best)@[j]).1 < final(nodes)@.len(),
        forall|t: TilePos| discovered(old(best)@, t) ==> discovered(final(best)@, t),
        discovered(final(best)@, npos),
        forall|t: TilePos|
            #[trigger] discovered(final(best)@, t) ==> discovered(old(best)@, t) || t == npos,
        forall|t: TilePos|
            #[trigger] discovered(final(best)@, t) ==> expanded.contains(t) || t == old(nodes)@[cur_idx as int].pos || exists|oi: int|
                0 <= oi < final(open)@.len() && final(nodes)@[#[trigger] final(open)@[oi] as int].pos == t,
{
    let ghost best_before = best@;
    let ghost open_step = open@;
    let ghost nodes_step = nodes@;
    let cur_g = nodes[cur_idx].g_cost;
    let new_g = cur_g + move_cost;
    match lookup_best(&best, npos) {
        Some(pair) => {
            proof {
                assert(discovered(best@, npos));
            }
            let existing = pair.1;
            if new_g < nodes[existing].g_cost {
                let h = heuristic(npos, actual_end);
                let ni = nodes.len();
                nodes.push(
                    PathNode { pos: npos, g_cost: new_g, h_cost: h, parent: Some(cur_idx) },
                );
                proof {
                    lemma_discovered_update_same(best@, pair.0 as int, (npos, ni));
                }
                best.set(pair.0, (npos, ni));
                open.push(ni);
                proof {
                    assert forall|t: TilePos|
                        #[trigger] discovered(best@, t) implies expanded.contains(t) || t
                        == nodes_step[cur_idx as int].pos || exists|oi: int|
                        0 <= oi < open@.len() && nodes@[#[trigger] open@[oi] as int].pos == t by {
                        if !expanded.contains(t) && t != nodes_step[cur_idx as int].pos {
                            assert(discovered(old(best)@, t));
                            let oi = choose|oi: int|
                                0 <= oi < old(open)@.len() && old(nodes)@[#[trigger] old(open)@[oi] as int].pos
                                    == t;
                            assert(open@[oi] == old(open)@[oi]);
                            assert(nodes@[open@[oi] as int].pos == t);
                        }
                    }
                }
            }
        },
        None => {
            let h = heuristic(npos, actual_end);
            let ni = nodes.len();
            nodes.push(PathNode { pos: npos, g_cost: new_g, h_cost: h, parent: Some(cur_idx) });
            proof {
                lemma_discovered_push(best@, (npos, ni));
            }
            best.push((npos, ni));
            open.push(ni);
            proof {
                assert(nodes@[open@[open@.len() - 1] as int].pos == npos);
                assert forall|t: TilePos|
                    #[trigger] discovered(best@, t) implies discovered(best_before, t) || t
                    == npos by {
                    let w = choose|w: int| 0 <= w < best@.len() && best@[w].0 == t;
                    if w < best_before.len() {
                        assert(best_before[w].0 == t);
                    }
                }
                assert forall|t: TilePos|
                    #[trigger] discovered(best@, t) implies expanded.contains(t) || t
                    == nodes_step[cur_idx as int].pos || exists|oi: int|
                    0 <= oi < open@.len() && nodes@[#[trigger] open@[oi] as int].pos == t by {
                    if !expanded.contains(t) && t != nodes_step[cur_idx as int].pos {
                        if discovered(best_before, t) {
                            assert(discovered(old(best)@, t));
                            let oi = choose|oi: int|
                                0 <= oi < old(open)@.len() && old(nodes)@[#[trigger] old(open)@[oi] as int].pos
                                    == t;
                            assert(open@[oi] == old(open)@[oi]);
                            assert(nodes@[open@[oi] as int].pos == t);
                        } else {
                            assert(t == npos);
                            assert(nodes@[open@[open@.len() - 1] as int].pos == t);
                        }
                    }
                }
            }
        },
    }
}

/// Process every neighbour of the node at `cur_idx`: record newly reachable
/// tiles, re-record improved routes to known tiles, and queue them. Afterward
/// every legal step out of that node's tile leads to a discovered tile.
#[verifier::rlimit(100)]
#[verifier::spinoff_prover]
fn expand_node(
    structure_manager: &StructureManager,
    nodes: &mut Vec<PathNode>,
    best: &mut Vec<(TilePos, usize)>,
    open: &mut Vec<usize>,
    cur_idx: usize,
    actual_end: TilePos,
    Ghost(m): Ghost<StructureManager>,
    Ghost(start_grid): Ghost<TilePos>,
    Ghost(expanded): Ghost<Set<TilePos>>,
)
    requires
        m == *structure_manager,
        m.wf(),
        wf_nodes(old(nodes)@, m, start_grid, actual_end),
        old(nodes)@.len() <= 180001,
        cur_idx < old(nodes)@.len(),
        forall|j: int| 0 <= j < old(open)@.len() ==> #[trigger] old(open)@[j] < old(nodes)@.len(),
        forall|j: int|
            0 <= j < old(best)@.len() ==> (#[trigger] old(best)@[j]).1 < old(nodes)@.len(),
        discovered(old(best)@, start_grid),
        forall|t: TilePos|
            #[trigger] discovered(old(best)@, t) ==> expanded.contains(t) || t == old(nodes)@[cur_idx as int].pos || exists|oi: int|
                0 <= oi < old(open)@.len() && old(nodes)@[#[trigger] old(open)@[oi] as int].pos
                    == t,
        forall|a: TilePos, b: TilePos|
            expanded.contains(a) && #[trigger] step_ok(m, a, b) ==> discovered(old(best)@, b),
    ensures
        wf_nodes(final(nodes)@, m, start_grid, actual_end),
        final(nodes)@.len() <= old(nodes)@.len() + 8,
        final(nodes)@[cur_idx as int] == old(nodes)@[cur_idx as int],
        forall|j: int| 0 <= j < final(open)@.len() ==> #[trigger] final(open)@[j] < final(nodes)@.len(),
        forall|j: int|
            0 <= j < final(best)@.len() ==> (#[trigger] final(best)@[j]).1 < final(nodes)@.len(),
        discovered(final(best)@, start_grid),
        forall|t: TilePos|
            #[trigger] discovered(final(best)@, t) ==> expanded.contains(t) || t == old(nodes)@[cur_idx as int].pos || exists|oi: int|
                0 <= oi < final(open)@.len() && final(nodes)@[#[trigger] final(open)@[oi] as int].pos == t,
        forall|a: TilePos, b: TilePos|
            expanded.contains(a) && #[trigger] step_ok(m, a, b) ==> discovered(final(best)@, b),
        forall|t: TilePos|
            #[trigger] step_ok(m, old(nodes)@[cur_idx as int].pos, t) ==> discovered(
                final(best)@,
                t,
            ),
{
    let cur_pos = nodes[cur_idx].pos;
    let nbrs = get_neighbors(cur_pos);
    let nbrs_len = nbrs.len();
    let cur_g = nodes[cur_idx].g_cost;
    let mut k: usize = 0;
    while k < nbrs_len
        invariant
            wf_nodes(nodes@, m, start_grid, actual_end),
            k <= nbrs_len,
            nbrs_len == nbrs@.len(),
            nbrs@.len() <= 8,
            cur_idx < nodes@.len(),
            nodes@[cur_idx as int] == old(nodes)@[cur_idx as int],
            nodes@[cur_idx as int].pos == cur_pos,
            nodes@[cur_idx as int].g_cost == cur_g,
            nodes@.len() <= old(nodes)@.len() + k,
            forall|j2: int| 0 <= j2 < open@.len() ==> #[trigger] open@[j2] < nodes@.len(),
            forall|j2: int| 0 <= j2 < best@.len() ==> (#[trigger] best@[j2]).1 < nodes@.len(),
            discovered(best@, start_grid),
            forall|t: TilePos|
                #[trigger] discovered(best@, t) ==> expanded.contains(t) || t == cur_pos
                    || exists|oi: int|
                    0 <= oi < open@.len() && nodes@[#[trigger] open@[oi] as int].pos == t,
            forall|a: TilePos, b: TilePos|
                expanded.contains(a) && #[trigger] step_ok(m, a, b) ==> discovered(best@, b),
            forall|t: TilePos|
                #[trigger] step_ok(m, cur_pos, t) && nbrs@.take(k as int).contains(t)
                    ==> discovered(best@, t),
        decreases nbrs_len - k,
    {
        let npos = nbrs[k];
        let ghost best_before = best@;
        let ghost open_step = open@;
        let ghost nodes_step = nodes@;
        proof {
            assert(nbrs@.take(k + 1) =~= nbrs@.take(k as int).push(nbrs@[k as int]));
        }
        let diag = is_diagonal(cur_pos, npos);
        if diag {
            let corner_1 = TilePos { x: cur_pos.x, y: npos.y };
            let corner_2 = TilePos { x: npos.x, y: cur_pos.y };
            if !crate::map::is_tile_passable(corner_1, structure_manager)
                && !crate::map::is_tile_passable(corner_2, structure_manager) {
                proof {
                    assert(!step_ok(m, cur_pos, npos));
                }
                k += 1;
                continue ;
            }
        }
        if !crate::map::is_tile_passable(npos, structure_manager) {
            proof {
                assert(!step_ok(m, cur_pos, npos));
            }
            k += 1;
            continue ;
        }
        proof {
            assert(step_ok(m, cur_pos, npos));
        }
        let move_cost: u64 = if diag {
            DIAG_COST
        } else {
            ORTHO_COST
        };
        record_neighbor(
            nodes,
            best,
            open,
            cur_idx,
            npos,
            move_cost,
            actual_end,
            Ghost(m),
            Ghost(start_grid),
            Ghost(expanded),
        );
        k += 1;
    }
    proof {
        assert forall|t: TilePos| #[trigger] step_ok(m, cur_pos, t) implies discovered(
            best@,
            t,
        ) by {
            assert(adjacent8(cur_pos, t));
            assert(nbrs@.contains(t));
            assert(nbrs@.take(nbrs_len as int) =~= nbrs@);
        }
    }
}

/// Find a route from `start_grid` toward `end_grid` by weighted A* over the
/// eight-connected grid. A blocked goal is replaced by the nearest passable
/// ring-scan tile (or the start itself); call that the resolved goal. The
/// search stops after a budget of node expansions that grows with the
/// distance; the second component of the result reports that exhaustion.
///
/// The contract pins the outcome down: a search that was not cut short
/// returns a path ending at the resolved goal; a cut-short search still
/// returns a path, to the expanded node closest to the goal by heuristic (so
/// a returned path always ends at least as close to the resolved goal as the
/// start was); and nothing is returned only when no corner-safe passable
/// route to the resolved goal exists at all.
#[verifier::rlimit(100)]
#[verifier::spinoff_prover]
pub fn find_path(start_grid: TilePos, end_grid: TilePos, structure_manager: &StructureManager) -> (r:
    (Option<Vec<TilePos>>, bool))
    requires
        structure_manager.wf(),
    ensures
        r.0 matches Some(path) ==> valid_path(*structure_manager, path@, start_grid),
        r.0 matches Some(path) ==> (structure_manager.is_passable_spec(start_grid) ==> forall|
            i: int,
        | 0 <= i < path@.len() ==> structure_manager.is_passable_spec(#[trigger] path@[i])),
        r.0 matches Some(path) ==> h_spec(
            path@.last(),
            resolved_goal(*structure_manager, start_grid, end_grid),
        ) <= h_spec(start_grid, resolved_goal(*structure_manager, start_grid, end_grid)),
        !r.1 ==> (r.0 matches Some(path) ==> path@.last() == resolved_goal(
            *structure_manager,
            start_grid,
            end_grid,
        )),
        r.0 is None ==> !route_exists(
            *structure_manager,
            start_grid,
            resolved_goal(*structure_manager, start_grid, end_grid),
        ),
        r.1 ==> r.0 is Some,
        start_grid == resolved_goal(*structure_manager, start_grid, end_grid) ==> {
            &&& r.0 is Some
            &&& !r.1
            &&& (r.0 matches Some(path) ==> path@ =~= seq![start_grid])
        },
{
    let ghost m = *structure_manager;
    let actual_end: TilePos = if crate::map::is_tile_passable(end_grid, structure_manager) {
        end_grid
    } else {
        match find_nearest_passable_tile(end_grid, start_grid, structure_manager) {
            Some(t) => t,
            None => start_grid,
        }
    };
    proof {
        assert(actual_end == resolved_goal(m, start_grid, end_grid));
    }
    if start_grid.x == actual_end.x && start_grid.y == actual_end.y {
        let p = vec![start_grid];
        proof {
            assert(p@[0] == start_grid);
            assert(p@.last() == start_grid);
        }
        return (Some(p), false);
    }
    let dist_scaled = heuristic(start_grid, actual_end);
    let per_tile_extra = (dist_scaled + 5) / 10;
    let mut max_expansions: u64 = BASE_LIMIT + per_tile_extra * PER_TILE_LIMIT;
    if max_expansions > MAX_LIMIT {
        max_expansions = MAX_LIMIT;
    }

    let mut nodes: Vec<PathNode> = Vec::new();
    let h0 = heuristic(start_grid, actual_end);
    nodes.push(PathNode { pos: start_grid, g_cost: 0, h_cost: h0, parent: None });
    let mut best: Vec<(TilePos, usize)> = Vec::new();
    best.push((start_grid, 0));
    let mut open: Vec<usize> = Vec::new();
    open.push(0);
    let mut expansions: u64 = 0;
    // Ghost bookkeeping for the no-route argument: the tiles whose node has
    // been taken off the open list and had its neighbours processed.
    let ghost mut expanded: Set<TilePos> = Set::empty();
    proof {
        assert(best@[0].0 == start_grid);
        assert(nodes@[open@[0] as int].pos == start_grid);
    }

    while open.len() > 0
        invariant
            wf_nodes(nodes@, m, start_grid, actual_end),
            expansions <= max_expansions,
            nodes@.len() <= 1 + 9 * expansions,
            forall|j: int| 0 <= j < open@.len() ==> #[trigger] open@[j] < nodes@.len(),
            forall|j: int| 0 <= j < best@.len() ==> (#[trigger] best@[j]).1 < nodes@.len(),
            discovered(best@, start_grid),
            !expanded.contains(actual_end),
            // Every discovered tile is expanded or still waiting in the open
            // list.
            forall|t: TilePos|
                #[trigger] discovered(best@, t) ==> expanded.contains(t) || exists|oi: int|
                    0 <= oi < open@.len() && nodes@[#[trigger] open@[oi] as int].pos == t,
            // Every legal step out of an expanded tile was discovered.
            forall|a: TilePos, b: TilePos|
                expanded.contains(a) && #[trigger] step_ok(m, a, b) ==> discovered(best@, b),
        decreases max_expansions + 1 - expansions,
    {
        expansions = expansions + 1;
        if expansions > max_expansions {
            // Budget exhausted: fall back to the reachable node closest to
            // the goal by heuristic, which the start node bounds from above.
            let mut bi: usize = 0;
            let mut j: usize = 1;
            while j < nodes.len()
                invariant
                    bi < nodes@.len(),
                    1 <= j <= nodes@.len(),
                    forall|t: int|
                        0 <= t < j ==> nodes@[bi as int].h_cost <= (#[trigger] nodes@[t]).h_cost,
                decreases nodes@.len() - j,
            {
                if nodes[j].h_cost < nodes[bi].h_cost {
                    bi = j;
                }
                j += 1;
            }
            let p = reconstruct_path(&nodes, bi, Ghost(m), Ghost(start_grid), Ghost(actual_end));
            proof {
                if m.is_passable_spec(start_grid) {
                    lemma_valid_path_passable(m, p@, start_grid);
                }
            }
            return (Some(p), true);
        }
        // Take the open node with the smallest f = g + h.
        let mut mi: usize = 0;
        let mut j: usize = 1;
        while j < open.len()
            invariant
                open@.len() >= 1,
                mi < open@.len(),
                1 <= j <= open@.len(),
                forall|t: int| 0 <= t < open@.len() ==> #[trigger] open@[t] < nodes@.len(),
            decreases open@.len() - j,
        {
            let a = open[mi];
            let b = open[j];
            let fa = nodes[a].g_cost + nodes[a].h_cost;
            let fb = nodes[b].g_cost + nodes[b].h_cost;
            if fb < fa {
                mi = j;
            }
            j += 1;
        }
        let ghost open_before = open@;
        let cur_idx = open.swap_remove(mi);
        let cur_pos = nodes[cur_idx].pos;
        if cur_pos.x == actual_end.x && cur_pos.y == actual_end.y {
            let p = reconstruct_path(
                &nodes,
                cur_idx,
                Ghost(m),
                Ghost(start_grid),
                Ghost(actual_end),
            );
            proof {
                assert(dist_sq(actual_end, actual_end) == 0) by (nonlinear_arith)
                    requires
                        dx(actual_end, actual_end) == 0,
                        dy(actual_end, actual_end) == 0,
                        dist_sq(actual_end, actual_end) == dx(actual_end, actual_end) * dx(
                            actual_end,
                            actual_end,
                        ) + dy(actual_end, actual_end) * dy(actual_end, actual_end),
                ;
                assert(dist_sq(start_grid, actual_end) >= 0) by (nonlinear_arith)
                    requires
                        dist_sq(start_grid, actual_end) == dx(start_grid, actual_end) * dx(
                            start_grid,
                            actual_end,
                        ) + dy(start_grid, actual_end) * dy(start_grid, actual_end),
                ;
                lemma_sqrt_floor_bounds(100 * dist_sq(start_grid, actual_end));
                if m.is_passable_spec(start_grid) {
                    lemma_valid_path_passable(m, p@, start_grid);
                }
            }
            return (Some(p), false);
        }
        proof {
            // Every tile waiting in the old open list, other than the taken
            // entry, still waits somewhere in the shrunk one, so a discovered
            // tile is expanded, the tile just taken, or still waiting.
            assert forall|oi: int|
                0 <= oi < open_before.len() && oi != mi implies exists|oj: int|
                    0 <= oj < open@.len() && open@[oj] == #[trigger] open_before[oi] by {
                if oi < open_before.len() - 1 {
                    assert(open@[oi] == open_before[oi]);
                } else {
                    assert(mi < open_before.len() - 1);
                    assert(open@[mi as int] == open_before[oi]);
                }
            }
            assert forall|t: TilePos|
                #[trigger] discovered(best@, t) implies expanded.contains(t) || t == cur_pos
                    || exists|oi: int|
                    0 <= oi < open@.len() && nodes@[#[trigger] open@[oi] as int].pos == t by {
                if !expanded.contains(t) && t != cur_pos {
                    let oi = choose|oi: int|
                        0 <= oi < open_before.len() && nodes@[#[trigger] open_before[oi] as int].pos
                            == t;
                    assert(oi != mi) by {
                        assert(open_before[mi as int] == cur_idx);
                    }
                    let oj = choose|oj: int|
                        0 <= oj < open@.len() && open@[oj] == open_before[oi];
                    assert(nodes@[open@[oj] as int].pos == t);
                }
            }
        }
        expand_node(
            structure_manager,
            &mut nodes,
            &mut best,
            &mut open,
            cur_idx,
            actual_end,
            Ghost(m),
            Ghost(start_grid),
            Ghost(expanded),
        );
        proof {
            expanded = expanded.insert(cur_pos);
            assert forall|a: TilePos, b: TilePos|
                expanded.contains(a) && #[trigger] step_ok(m, a, b) implies discovered(best@, b) by {
            }
        }
    }
    proof {
        // The open list is empty, so every discovered tile was expanded; the
        // expanded set is closed under legal steps, contains the start, and
        // never contained the resolved goal, so no valid path reaches it.
        assert forall|t: TilePos| #[trigger] discovered(best@, t) implies expanded.contains(t) by {}
        assert forall|p_seq: Seq<TilePos>|
            #[trigger] valid_path(m, p_seq, start_grid) implies p_seq.last() != actual_end by {
            if p_seq.last() == actual_end {
                assert forall|a: TilePos, b: TilePos|
                    discovered(best@, a) && #[trigger] step_ok(m, a, b) implies discovered(
                    best@,
                    b,
                ) by {
                    assert(expanded.contains(a));
                }
                lemma_closed_set_traps_paths(m, best@, p_seq, start_grid);
                assert(expanded.contains(actual_end));
            }
        }
    }
    (None, false)
}

/// Ticks without tile progress after which navigation is abandoned: five
/// seconds at the target tick rate.
pub const LIMIT_STUCK_TICKS: u32 = crate::UPS_TARGET * 5;

/// Per-agent navigation state: the optional target tile, the queue of
/// waypoints the pathfinder produced, and the bookkeeping that detects a
/// stuck agent.
pub struct PathfindingAgent {
    pub target: Option<TilePos>,
    pub path: VecDeque<TilePos>,
    pub last_tile_pos: Option<TilePos>,
    pub stuck_ticks_counter: u32,
}

impl PathfindingAgent {
    /// The stuck counter never runs past the abandon threshold.
    pub open spec fn wf(&self) -> bool {
        self.stuck_ticks_counter <= LIMIT_STUCK_TICKS
    }

    /// Navigation state at rest: no target, no path, no stuck history.
    pub open spec fn is_reset(&self) -> bool {
        &&& self.target is None
        &&& self.path@.len() == 0
        &&& self.last_tile_pos is None
        &&& self.stuck_ticks_counter == 0
    }

    /// Clear all navigation state.
    pub fn reset(&mut self)
        ensures
            final(self).is_reset(),
            final(self).wf(),
    {
        self.target = None;
        self.path.clear();
        self.last_tile_pos = None;
        self.stuck_ticks_counter = 0;
    }
}

impl Default for PathfindingAgent {
    /// Navigation state at rest.
    fn default() -> (a: PathfindingAgent)
        ensures
            a.is_reset(),
            a.wf(),
    {
        PathfindingAgent {
            target: None,
            path: VecDeque::new(),
            last_tile_pos: None,
            stuck_ticks_counter: 0,
        }
    }
}

/// One pathfinding tick for an agent standing on `current_tile`: an agent
/// with a target and no waypoints left asks the pathfinder for a route. The
/// computed route is stored; the agent resets its navigation only when the
/// pathfinder found none, which it does only when no corner-safe passable
/// route to the resolved goal exists at all. When such a route exists the
/// agent therefore always comes away holding a valid path.
pub fn pathfinding_step(
    agent: &mut PathfindingAgent,
    current_tile: TilePos,
    structure_manager: &StructureManager,
)
    requires
        old(agent).wf(),
        structure_manager.wf(),
    ensures
        final(agent).wf(),
        old(agent).target is None || old(agent).path@.len() > 0 ==> *final(agent) == *old(agent),
        final(agent).is_reset() ==> (old(agent).target matches Some(goal) ==> !route_exists(
            *structure_manager,
            current_tile,
            resolved_goal(*structure_manager, current_tile, goal),
        )),
        old(agent).path@.len() == 0 ==> (old(agent).target matches Some(goal) ==> {
            ||| {
                &&& final(agent).is_reset()
                &&& !route_exists(
                    *structure_manager,
                    current_tile,
                    resolved_goal(*structure_manager, current_tile, goal),
                )
            }
            ||| {
                &&& final(agent).target == old(agent).target
                &&& final(agent).last_tile_pos == old(agent).last_tile_pos
                &&& final(agent).stuck_ticks_counter == old(agent).stuck_ticks_counter
                &&& valid_path(*structure_manager, final(agent).path@, current_tile)
                &&& h_spec(
                    final(agent).path@.last(),
                    resolved_goal(*structure_manager, current_tile, goal),
                ) <= h_spec(current_tile, resolved_goal(*structure_manager, current_tile, goal))
            }
        }),
        old(agent).path@.len() == 0 ==> (old(agent).target matches Some(goal) ==> (route_exists(
            *structure_manager,
            current_tile,
            resolved_goal(*structure_manager, current_tile, goal),
        ) ==> !final(agent).is_reset() && valid_path(
            *structure_manager,
            final(agent).path@,
            current_tile,
        ))),
{
    let target = agent.target;
    match target {
        Some(goal) => {
            if agent.path.len() == 0 {
                match find_path(current_tile, goal, structure_manager) {
                    (Some(new_path), _) => {
                        let ghost p = new_path@;
                        let mut q: VecDeque<TilePos> = VecDeque::new();
                        let mut i: usize = 0;
                        while i < new_path.len()
                            invariant
                                i <= p.len(),
                                new_path@ == p,
                                q@ =~= p.take(i as int),
                            decreases p.len() - i,
                        {
                            q.push_back(new_path[i]);
                            proof {
                                assert(q@ =~= p.take(i + 1));
                            }
                            i += 1;
                        }
                        proof {
                            assert(q@ =~= p);
                        }
                        agent.path = q;
                    },
                    (None, _) => {
                        agent.reset();
                    },
                }
            }
        },
        None => {},
    }
}

/// One movement tick for an agent standing on `current_tile`. Returns the
/// direction the movement layer should take over, or nothing when the agent
/// keeps its previous direction (which only happens when navigation is
/// abandoned as stuck):
/// - no waypoints: the agent idles and the direction clears;
/// - no tile progress for longer than the stuck window: navigation resets;
/// - standing on the head waypoint: it is popped (arriving at the last one
///   resets navigation) and the direction clears;
/// - otherwise: step one tile toward the head waypoint.
pub fn movement_step(agent: &mut PathfindingAgent, current_tile_pos: TilePos) -> (dir: Option<
    Direction,
>)
    requires
        old(agent).wf(),
    ensures
        final(agent).wf(),
        old(agent).path@.len() == 0 ==> *final(agent) == *old(agent) && dir == Some(
            Direction::Null,
        ),
        old(agent).path@.len() > 0 ==> {
            let bumped: int = if old(agent).last_tile_pos == Some(current_tile_pos) {
                old(agent).stuck_ticks_counter + 1
            } else {
                old(agent).stuck_ticks_counter as int
            };
            if bumped > LIMIT_STUCK_TICKS {
                final(agent).is_reset() && dir is None
            } else if old(agent).path@[0] == current_tile_pos {
                dir == Some(Direction::Null) && (if old(agent).path@.len() == 1 {
                    final(agent).is_reset()
                } else {
                    &&& final(agent).path@ == old(agent).path@.skip(1)
                    &&& final(agent).target == old(agent).target
                    &&& final(agent).last_tile_pos == old(agent).last_tile_pos
                    &&& final(agent).stuck_ticks_counter == bumped
                })
            } else {
                &&& dir == Some(
                    crate::units::direction_of(
                        (
                            sign(old(agent).path@[0].x as int - current_tile_pos.x as int),
                            sign(old(agent).path@[0].y as int - current_tile_pos.y as int),
                        ),
                    ),
                )
                &&& final(agent).path@ == old(agent).path@
                &&& final(agent).target == old(agent).target
                &&& final(agent).last_tile_pos == Some(current_tile_pos)
                &&& final(agent).stuck_ticks_counter == bumped
            }
        },
{
    if agent.path.len() == 0 {
        return Some(Direction::Null);
    }
    let next_waypoint = agent.path[0];
    if agent.last_tile_pos == Some(current_tile_pos) {
        agent.stuck_ticks_counter = agent.stuck_ticks_counter + 1;
    }
    if agent.stuck_ticks_counter > LIMIT_STUCK_TICKS {
        agent.reset();
        return None;
    }
    if next_waypoint.x == current_tile_pos.x && next_waypoint.y == current_tile_pos.y {
        agent.path.pop_front();
        if agent.path.len() == 0 {
            agent.reset();
        }
        return Some(Direction::Null);
    }
    let step_x: i32 = if next_waypoint.x > current_tile_pos.x {
        1
    } else if next_waypoint.x < current_tile_pos.x {
        -1
    } else {
        0
    };
    let step_y: i32 = if next_waypoint.y > current_tile_pos.y {
        1
    } else if next_waypoint.y < current_tile_pos.y {
        -1
    } else {
        0
    };
    agent.last_tile_pos = Some(current_tile_pos);
    Some(Direction::from((step_x, step_y)))
}

} // verus!
