//! The world passability oracle: a spatial index from tile coordinate to the
//! structure entity occupying it. A tile is passable exactly when no
//! structure is registered on it; tiles of chunks that were never
//! materialized have no entry and so count as passable (open world).
use vstd::prelude::*;
use crate::items::EntityId;
use crate::tiles::TilePos;

verus! {

/// Marker for a structure entity.
pub struct Structure;

/// Marker for a container entity agents can take from or drop into.
pub struct Chest;

/// Marker for a chest that offers its stock to agents.
pub struct Provider;

/// Marker for a chest that receives deliveries.
pub struct Requester;

/// Marker for a wall entity.
pub struct Wall;

/// The entity registered on `t`, if any; later registrations win.
pub open spec fn index_lookup(s: Seq<(TilePos, EntityId)>, t: TilePos) -> Option<EntityId>
    decreases s.len(),
{
    if s.len() == 0 {
        None
    } else if s.last().0 == t {
        Some(s.last().1)
    } else {
        index_lookup(s.drop_last(), t)
    }
}

proof fn lemma_lookup_absent(s: Seq<(TilePos, EntityId)>, t: TilePos)
    requires
        forall|i: int| 0 <= i < s.len() ==> (#[trigger] s[i]).0 != t,
    ensures
        index_lookup(s, t) is None,
    decreases s.len(),
{
    if s.len() > 0 {
        lemma_lookup_absent(s.drop_last(), t);
    }
}

proof fn lemma_lookup_found(s: Seq<(TilePos, EntityId)>, i: int)
    requires
        0 <= i < s.len(),
        forall|a: int, b: int| 0 <= a < b < s.len() ==> (#[trigger] s[a]).0 != (#[trigger] s[b]).0,
    ensures
        index_lookup(s, s[i].0) == Some(s[i].1),
    decreases s.len(),
{
    if i == s.len() - 1 {
    } else {
        lemma_lookup_found(s.drop_last(), i);
    }
}

/// Appending an entry only changes the lookup of its own tile.
proof fn lemma_lookup_push(s: Seq<(TilePos, EntityId)>, e: (TilePos, EntityId))
    ensures
        index_lookup(s.push(e), e.0) == Some(e.1),
        forall|t: TilePos| t != e.0 ==> #[trigger] index_lookup(s.push(e), t) == index_lookup(s, t),
{
    assert forall|t: TilePos| t != e.0 implies #[trigger] index_lookup(s.push(e), t)
        == index_lookup(s, t) by {
        assert(s.push(e).drop_last() =~= s);
    }
    assert(s.push(e).last() == e);
}

/// Replacing the entry at `i` (same tile) only changes that tile's lookup.
proof fn lemma_lookup_update(s: Seq<(TilePos, EntityId)>, i: int, e: (TilePos, EntityId))
    requires
        0 <= i < s.len(),
        s[i].0 == e.0,
        forall|a: int, b: int| 0 <= a < b < s.len() ==> (#[trigger] s[a]).0 != (#[trigger] s[b]).0,
    ensures
        index_lookup(s.update(i, e), e.0) == Some(e.1),
        forall|t: TilePos| t != e.0 ==> #[trigger] index_lookup(s.update(i, e), t) == index_lookup(
            s,
            t,
        ),
    decreases s.len(),
{
    if i == s.len() - 1 {
        assert(s.update(i, e).drop_last() =~= s.drop_last());
        assert(s.update(i, e).last() == e);
        assert forall|t: TilePos| t != e.0 implies #[trigger] index_lookup(s.update(i, e), t)
            == index_lookup(s, t) by {
            assert(s.last().0 == e.0);
        }
    } else {
        assert(s.update(i, e).drop_last() =~= s.drop_last().update(i, e));
        lemma_lookup_update(s.drop_last(), i, e);
        assert(s.update(i, e).last() == s.last());
        assert(s.last().0 != e.0);
        assert forall|t: TilePos| t != e.0 implies #[trigger] index_lookup(s.update(i, e), t)
            == index_lookup(s, t) by {
            assert(index_lookup(s.drop_last().update(i, e), t) == index_lookup(s.drop_last(), t));
        }
    }
}

/// Removing the entry at `i` only clears that tile's lookup.
proof fn lemma_lookup_remove(s: Seq<(TilePos, EntityId)>, i: int)
    requires
        0 <= i < s.len(),
        forall|a: int, b: int| 0 <= a < b < s.len() ==> (#[trigger] s[a]).0 != (#[trigger] s[b]).0,
    ensures
        index_lookup(s.remove(i), s[i].0) is None,
        forall|t: TilePos| t != s[i].0 ==> #[trigger] index_lookup(s.remove(i), t) == index_lookup(
            s,
            t,
        ),
    decreases s.len(),
{
    if i == s.len() - 1 {
        assert(s.remove(i) =~= s.drop_last());
        assert forall|j: int| 0 <= j < s.drop_last().len() implies (#[trigger] s.drop_last()[j]).0
            != s[i].0 by {}
        lemma_lookup_absent(s.drop_last(), s[i].0);
    } else {
        assert(s.remove(i).drop_last() =~= s.drop_last().remove(i));
        lemma_lookup_remove(s.drop_last(), i);
        assert(s.remove(i).last() == s.last());
        assert(s.last().0 != s[i].0);
        assert forall|t: TilePos| t != s[i].0 implies #[trigger] index_lookup(s.remove(i), t)
            == index_lookup(s, t) by {
            assert(index_lookup(s.drop_last().remove(i), t) == index_lookup(s.drop_last(), t));
        }
    }
}

/// Spatial index from tile coordinate to the structure occupying it, so the
/// structure at a coordinate is found without checking every structure.
pub struct StructureManager {
    structures: Vec<(TilePos, EntityId)>,
}

impl StructureManager {
    /// At most one structure per tile.
    pub closed spec fn wf(&self) -> bool {
        forall|a: int, b: int|
            0 <= a < b < self.structures@.len() ==> (#[trigger] self.structures@[a]).0 != (
            #[trigger] self.structures@[b]).0
    }

    /// The structure entity on `t`, if any.
    pub closed spec fn structure_at(&self, t: TilePos) -> Option<EntityId> {
        index_lookup(self.structures@, t)
    }

    /// A tile is passable exactly when no structure occupies it.
    pub open spec fn is_passable_spec(&self, t: TilePos) -> bool {
        self.structure_at(t) is None
    }

    pub fn new() -> (m: StructureManager)
        ensures
            m.wf(),
            forall|t: TilePos| #[trigger] m.structure_at(t) is None,
    {
        let m = StructureManager { structures: Vec::new() };
        proof {
            assert forall|t: TilePos| #[trigger] m.structure_at(t) is None by {
                lemma_lookup_absent(m.structures@, t);
            }
        }
        m
    }

    /// Register `structure_entity` as occupying `rounded_tile_pos`; a
    /// structure already there is replaced.
    pub fn register_structure(&mut self, rounded_tile_pos: TilePos, structure_entity: EntityId)
        requires
            old(self).wf(),
        ensures
            final(self).wf(),
            final(self).structure_at(rounded_tile_pos) == Some(structure_entity),
            forall|t: TilePos|
                t != rounded_tile_pos ==> #[trigger] final(self).structure_at(t) == old(
                    self,
                ).structure_at(t),
    {
        let ghost s0 = self.structures@;
        let mut i: usize = 0;
        while i < self.structures.len()
            invariant
                *self == *old(self),
                i <= s0.len(),
                forall|j: int| 0 <= j < i ==> (#[trigger] s0[j]).0 != rounded_tile_pos,
            decreases s0.len() - i,
        {
            if self.structures[i].0 == rounded_tile_pos {
                proof {
                    lemma_lookup_update(s0, i as int, (rounded_tile_pos, structure_entity));
                }
                self.structures.set(i, (rounded_tile_pos, structure_entity));
                return ;
            }
            i += 1;
        }
        proof {
            lemma_lookup_push(s0, (rounded_tile_pos, structure_entity));
        }
        self.structures.push((rounded_tile_pos, structure_entity));
    }

    /// Unregister whatever structure occupies `rounded_tile_pos`, returning
    /// it; the tile becomes passable.
    pub fn unregister_structure(&mut self, rounded_tile_pos: TilePos) -> (removed: Option<EntityId>)
        requires
            old(self).wf(),
        ensures
            final(self).wf(),
            removed == old(self).structure_at(rounded_tile_pos),
            final(self).structure_at(rounded_tile_pos) is None,
            forall|t: TilePos|
                t != rounded_tile_pos ==> #[trigger] final(self).structure_at(t) == old(
                    self,
                ).structure_at(t),
    {
        let ghost s0 = self.structures@;
        let mut i: usize = 0;
        while i < self.structures.len()
            invariant
                *self == *old(self),
                i <= s0.len(),
                forall|j: int| 0 <= j < i ==> (#[trigger] s0[j]).0 != rounded_tile_pos,
            decreases s0.len() - i,
        {
            if self.structures[i].0 == rounded_tile_pos {
                let entity = self.structures[i].1;
                proof {
                    lemma_lookup_found(s0, i as int);
                    lemma_lookup_remove(s0, i as int);
                }
                self.structures.remove(i);
                return Some(entity);
            }
            i += 1;
        }
        proof {
            lemma_lookup_absent(s0, rounded_tile_pos);
        }
        None
    }
}

/// Whether an agent may occupy or traverse `rounded_tile_pos`: true exactly
/// when no structure is registered there. A chunk that was never materialized
/// has registered nothing, so its tiles read as passable.
pub fn is_tile_passable(rounded_tile_pos: TilePos, structure_manager: &StructureManager) -> (r:
    bool)
    requires
        structure_manager.wf(),
    ensures
        r == structure_manager.is_passable_spec(rounded_tile_pos),
{
    let ghost s0 = structure_manager.structures@;
    let mut i: usize = 0;
    while i < structure_manager.structures.len()
        invariant
            i <= s0.len(),
            forall|j: int| 0 <= j < i ==> (#[trigger] s0[j]).0 != rounded_tile_pos,
        decreases s0.len() - i,
    {
        if structure_manager.structures[i].0 == rounded_tile_pos {
            proof {
                lemma_lookup_found(s0, i as int);
            }
            return false;
        }
        i += 1;
    }
    proof {
        lemma_lookup_absent(s0, rounded_tile_pos);
    }
    true
}

/// Registry of materialized chunks, from chunk coordinate to chunk entity.
pub struct ChunkManager {
    spawned_chunks: Vec<(TilePos, EntityId)>,
}

impl ChunkManager {
    /// At most one chunk entity per chunk coordinate.
    pub closed spec fn wf(&self) -> bool {
        forall|a: int, b: int|
            0 <= a < b < self.spawned_chunks@.len() ==> (#[trigger] self.spawned_chunks@[a]).0 != (
            #[trigger] self.spawned_chunks@[b]).0
    }

    /// The chunk entity at `c`, if that chunk was materialized.
    pub closed spec fn chunk_at(&self, c: TilePos) -> Option<EntityId> {
        index_lookup(self.spawned_chunks@, c)
    }

    pub fn new() -> (m: ChunkManager)
        ensures
            m.wf(),
            forall|c: TilePos| #[trigger] m.chunk_at(c) is None,
    {
        let m = ChunkManager { spawned_chunks: Vec::new() };
        proof {
            assert forall|c: TilePos| #[trigger] m.chunk_at(c) is None by {
                lemma_lookup_absent(m.spawned_chunks@, c);
            }
        }
        m
    }

    /// Whether the chunk at `rounded_chunk_pos` was already materialized.
    pub fn contains_chunk(&self, rounded_chunk_pos: TilePos) -> (r: bool)
        requires
            self.wf(),
        ensures
            r == (self.chunk_at(rounded_chunk_pos) is Some),
    {
        let ghost s0 = self.spawned_chunks@;
        let mut i: usize = 0;
        while i < self.spawned_chunks.len()
            invariant
                i <= s0.len(),
                forall|j: int| 0 <= j < i ==> (#[trigger] s0[j]).0 != rounded_chunk_pos,
            decreases s0.len() - i,
        {
            if self.spawned_chunks[i].0 == rounded_chunk_pos {
                proof {
                    lemma_lookup_found(s0, i as int);
                }
                return true;
            }
            i += 1;
        }
        proof {
            lemma_lookup_absent(s0, rounded_chunk_pos);
        }
        false
    }

    /// Record the chunk entity materialized at `rounded_chunk_pos`; a chunk
    /// already recorded there is replaced.
    pub fn insert_chunk(&mut self, rounded_chunk_pos: TilePos, chunk_entity: EntityId)
        requires
            old(self).wf(),
        ensures
            final(self).wf(),
            final(self).chunk_at(rounded_chunk_pos) == Some(chunk_entity),
            forall|c: TilePos|
                c != rounded_chunk_pos ==> #[trigger] final(self).chunk_at(c) == old(self).chunk_at(
                    c,
                ),
    {
        let ghost s0 = self.spawned_chunks@;
        let mut i: usize = 0;
        while i < self.spawned_chunks.len()
            invariant
                *self == *old(self),
                i <= s0.len(),
                forall|j: int| 0 <= j < i ==> (#[trigger] s0[j]).0 != rounded_chunk_pos,
            decreases s0.len() - i,
        {
            if self.spawned_chunks[i].0 == rounded_chunk_pos {
                proof {
                    lemma_lookup_update(s0, i as int, (rounded_chunk_pos, chunk_entity));
                }
                self.spawned_chunks.set(i, (rounded_chunk_pos, chunk_entity));
                return ;
            }
            i += 1;
        }
        proof {
            lemma_lookup_push(s0, (rounded_chunk_pos, chunk_entity));
        }
        self.spawned_chunks.push((rounded_chunk_pos, chunk_entity));
    }
}

} // verus!
