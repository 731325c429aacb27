use vstd::prelude::*;
use crate::map::GameMap;
use crate::tiles::walkable;

verus! {

/// Handle of an entity: its slot in the entity table and that slot's generation.
#[derive(PartialEq, Eq, Structural, Clone, Copy, Debug)]
pub struct EntityId {
    pub index: u32,
    pub generation: u32,
}

/// Which entities stand on each tile, and which tiles cannot be entered.
pub struct SpatialIndex {
    /// One flag per tile: the terrain itself cannot be entered.
    pub terrain_blocked: Vec<bool>,
    /// One flag per tile: some occupant of the tile blocks movement.
    pub occupant_blocked: Vec<bool>,
    /// Occupants of each tile, each with whether it blocks movement.
    pub tile_content: Vec<Vec<(EntityId, bool)>>,
}

/// Some occupant in `c` blocks movement.
pub open spec fn any_blocks(c: Seq<(EntityId, bool)>) -> bool {
    exists|k: int| 0 <= k < c.len() && (#[trigger] c[k]).1
}

/// `e` is among the occupants in `c`.
pub open spec fn holds(c: Seq<(EntityId, bool)>, e: EntityId) -> bool {
    exists|k: int| 0 <= k < c.len() && (#[trigger] c[k]).0 == e
}

/// Holds of the occupant entries that are not of `e`.
pub open spec fn other_than(e: EntityId) -> spec_fn((EntityId, bool)) -> bool {
    |o: (EntityId, bool)| o.0 != e
}

/// Some entry of `e` in `c` blocks movement.
pub open spec fn carries_blocking(c: Seq<(EntityId, bool)>, e: EntityId) -> bool {
    exists|k: int| 0 <= k < c.len() && #[trigger] c[k] == (e, true)
}

impl SpatialIndex {
    pub open spec fn len(&self) -> int {
        self.tile_content.len() as int
    }

    /// Occupants of tile `i`, as a sequence.
    pub open spec fn content(&self, i: int) -> Seq<(EntityId, bool)> {
        self.tile_content[i]@
    }

    /// Tile `i` cannot be entered.
    pub open spec fn blocked_at(&self, i: int) -> bool {
        self.terrain_blocked[i] || self.occupant_blocked[i]
    }

    /// The buffers agree in length, and a tile's occupant flag is set exactly when one of
    /// its occupants blocks movement.
    pub open spec fn wf(&self) -> bool {
        &&& self.terrain_blocked.len() == self.tile_content.len()
        &&& self.occupant_blocked.len() == self.tile_content.len()
        &&& forall|i: int|
            0 <= i < self.len() ==> (#[trigger] self.occupant_blocked[i] == any_blocks(
                self.content(i),
            ))
    }

    /// An index of `size` tiles, all empty and open.
    pub fn new(size: usize) -> (r: SpatialIndex)
        ensures
            r.wf(),
            r.len() == size,
            forall|i: int| 0 <= i < size ==> (#[trigger] r.content(i)).len() == 0,
            forall|i: int| 0 <= i < size ==> !#[trigger] r.blocked_at(i),
    {
        let mut terrain_blocked: Vec<bool> = Vec::new();
        let mut occupant_blocked: Vec<bool> = Vec::new();
        let mut tile_content: Vec<Vec<(EntityId, bool)>> = Vec::new();
        let mut i: usize = 0;
        while i < size
            invariant
                i <= size,
                terrain_blocked.len() == i,
                occupant_blocked.len() == i,
                tile_content.len() == i,
                forall|k: int|
                    0 <= k < i ==> (#[trigger] tile_content[k])@.len() == 0 && !terrain_blocked[k]
                        && !occupant_blocked[k],
            decreases size - i,
        {
            terrain_blocked.push(false);
            occupant_blocked.push(false);
            let empty: Vec<(EntityId, bool)> = Vec::new();
            tile_content.push(empty);
            i = i + 1;
        }
        let r = SpatialIndex { terrain_blocked, occupant_blocked, tile_content };
        assert forall|k: int| 0 <= k < size implies !#[trigger] r.blocked_at(k) by {
            assert(r.tile_content[k]@.len() == 0);
        }
        assert forall|k: int| 0 <= k < size implies r.occupant_blocked[k] == any_blocks(
            #[trigger] r.content(k),
        ) by {
            assert(r.tile_content[k]@.len() == 0);
        }
        r
    }

    /// Resizes the index to `size` tiles and empties it.
    pub fn set_size(&mut self, size: usize)
        ensures
            final(self).wf(),
            final(self).len() == size,
            forall|i: int| 0 <= i < size ==> (#[trigger] final(self).content(i)).len() == 0,
            forall|i: int| 0 <= i < size ==> !#[trigger] final(self).blocked_at(i),
    {
        *self = SpatialIndex::new(size);
    }

    /// Forgets every occupant and every blocked tile; the size stays.
    pub fn clear(&mut self)
        ensures
            final(self).wf(),
            final(self).len() == old(self).len(),
            forall|i: int| 0 <= i < final(self).len() ==> (#[trigger] final(self).content(i)).len() == 0,
            forall|i: int| 0 <= i < final(self).len() ==> !#[trigger] final(self).blocked_at(i),
    {
        let n = self.tile_content.len();
        *self = SpatialIndex::new(n);
    }

    /// Marks every tile whose terrain cannot be walked on as blocked; occupants stay.
    pub fn populate_blocked_from_map(&mut self, map: &GameMap)
        requires
            old(self).wf(),
            map.wf(),
            old(self).len() == map.tiles.len(),
        ensures
            final(self).wf(),
            final(self).tile_content == old(self).tile_content,
            final(self).occupant_blocked == old(self).occupant_blocked,
            forall|i: int|
                0 <= i < final(self).len() ==> #[trigger] final(self).terrain_blocked[i]
                    == !walkable(map.tiles[i]),
    {
        self.terrain_blocked = map.terrain_blocked();
    }

    /// Whether tile `idx` cannot be entered, by its terrain or by an occupant.
    pub fn is_blocked(&self, idx: usize) -> (r: bool)
        requires
            self.wf(),
            idx < self.len(),
        ensures
            r == self.blocked_at(idx as int),
            r == (self.terrain_blocked[idx as int] || any_blocks(self.content(idx as int))),
    {
        self.terrain_blocked[idx] || self.occupant_blocked[idx]
    }

    /// The occupants of tile `idx`, in the order they were added.
    pub fn tile_content(&self, idx: usize) -> (r: Vec<EntityId>)
        requires
            idx < self.len(),
        ensures
            r.len() == self.content(idx as int).len(),
            forall|k: int| 0 <= k < r.len() ==> r[k] == self.content(idx as int)[k].0,
    {
        let c = &self.tile_content[idx];
        let mut r: Vec<EntityId> = Vec::new();
        let mut k: usize = 0;
        while k < c.len()
            invariant
                k <= c.len(),
                r.len() == k,
                forall|j: int| 0 <= j < k ==> r[j] == c[j].0,
            decreases c.len() - k,
        {
            r.push(c[k].0);
            k = k + 1;
        }
        r
    }

    fn content_copy(&self, idx: usize) -> (r: Vec<(EntityId, bool)>)
        requires
            idx < self.len(),
        ensures
            r@ == self.content(idx as int),
    {
        let c = &self.tile_content[idx];
        let mut r: Vec<(EntityId, bool)> = Vec::new();
        let mut k: usize = 0;
        while k < c.len()
            invariant
                k <= c.len(),
                r@ == c@.take(k as int),
            decreases c.len() - k,
        {
            r.push(c[k]);
            k = k + 1;
            assert(r@ =~= c@.take(k as int));
        }
        assert(c@.take(c.len() as int) =~= c@);
        r
    }

    /// Adds `entity` to the occupants of tile `idx`; the tile becomes blocked if the
    /// entity blocks movement.
    pub fn index_entity(&mut self, entity: EntityId, idx: usize, blocks_movement: bool)
        requires
            old(self).wf(),
            idx < old(self).len(),
        ensures
            final(self).wf(),
            final(self).len() == old(self).len(),
            final(self).terrain_blocked == old(self).terrain_blocked,
            final(self).content(idx as int) == old(self).content(idx as int).push(
                (entity, blocks_movement),
            ),
            forall|i: int|
                0 <= i < final(self).len() && i != idx ==> #[trigger] final(self).content(i)
                    == old(self).content(i),
    {
        let mut c = self.content_copy(idx);
        let ghost before = c@;
        c.push((entity, blocks_movement));
        proof {
            if any_blocks(before) {
                let k = choose|k: int| 0 <= k < before.len() && (#[trigger] before[k]).1;
                assert(c@[k] == before[k]);
            }
            if blocks_movement {
                assert(c@[before.len() as int].1);
            }
            if any_blocks(c@) {
                let k = choose|k: int| 0 <= k < c@.len() && (#[trigger] c@[k]).1;
                if k < before.len() {
                    assert(before[k] == c@[k]);
                }
            }
        }
        let b = self.occupant_blocked[idx] || blocks_movement;
        self.tile_content.set(idx, c);
        self.occupant_blocked.set(idx, b);
    }

    /// Takes `entity` off tile `idx` (every entry of it there) and says whether any of the
    /// removed entries blocked movement; the tile's blocked flag is recomputed from the
    /// occupants that remain.
    pub fn remove_entity(&mut self, entity: EntityId, idx: usize) -> (was_blocking: bool)
        requires
            old(self).wf(),
            idx < old(self).len(),
        ensures
            final(self).wf(),
            final(self).len() == old(self).len(),
            final(self).terrain_blocked == old(self).terrain_blocked,
            final(self).content(idx as int) == old(self).content(idx as int).filter(
                other_than(entity),
            ),
            !holds(final(self).content(idx as int), entity),
            was_blocking == carries_blocking(old(self).content(idx as int), entity),
            forall|i: int|
                0 <= i < final(self).len() && i != idx ==> #[trigger] final(self).content(i)
                    == old(self).content(i),
    {
        let c = self.content_copy(idx);
        let ghost before = c@;
        let ghost keep = other_than(entity);
        let mut kept: Vec<(EntityId, bool)> = Vec::new();
        let mut found_blocking = false;
        let mut still_blocked = false;
        let mut k: usize = 0;
        while k < c.len()
            invariant
                k <= c.len(),
                c@ == before,
                keep == other_than(entity),
                kept@ == before.take(k as int).filter(keep),
                found_blocking == exists|j: int| 0 <= j < k && #[trigger] before[j] == (entity, true),
                still_blocked == any_blocks(kept@),
                !holds(kept@, entity),
            decreases c.len() - k,
        {
            let o = c[k];
            proof {
                assert(before.take(k as int + 1) =~= before.take(k as int).push(o));
                before.take(k as int).lemma_filter_push(o, keep);
            }
            if o.0 == entity {
                assert(!keep(o));
                assert(before.take(k as int + 1).filter(keep) == kept@);
                if o.1 {
                    found_blocking = true;
                }
            } else {
                assert(keep(o));
                let ghost prev = kept@;
                kept.push(o);
                assert(before.take(k as int + 1).filter(keep) == kept@);
                proof {
                    assert(kept@[prev.len() as int] == o);
                    if any_blocks(kept@) {
                        let j = choose|j: int| 0 <= j < kept@.len() && (#[trigger] kept@[j]).1;
                        if j < prev.len() {
                            assert(prev[j] == kept@[j]);
                        }
                    }
                    if any_blocks(prev) {
                        let j = choose|j: int| 0 <= j < prev.len() && (#[trigger] prev[j]).1;
                        assert(kept@[j] == prev[j]);
                    }
                    if holds(kept@, entity) {
                        let j = choose|j: int| 0 <= j < kept@.len() && (#[trigger] kept@[j]).0 == entity;
                        assert(j < prev.len());
                        assert(prev[j] == kept@[j]);
                    }
                }
                if o.1 {
                    still_blocked = true;
                }
            }
            k = k + 1;
            assert(kept@ == before.take(k as int).filter(keep));
            assert(still_blocked == any_blocks(kept@));
        }
        proof {
            assert(before.take(before.len() as int) =~= before);
        }
        self.tile_content.set(idx, kept);
        self.occupant_blocked.set(idx, still_blocked);
        found_blocking
    }

    /// Moves `entity` from tile `from_idx` to tile `to_idx`. It keeps whether it blocks
    /// movement; both tiles' blocked flags are recomputed from their occupants.
    pub fn move_entity(&mut self, entity: EntityId, from_idx: usize, to_idx: usize)
        requires
            old(self).wf(),
            from_idx < old(self).len(),
            to_idx < old(self).len(),
        ensures
            final(self).wf(),
            final(self).len() == old(self).len(),
            final(self).terrain_blocked == old(self).terrain_blocked,
            holds(final(self).content(to_idx as int), entity),
            from_idx != to_idx ==> !holds(final(self).content(from_idx as int), entity),
            from_idx != to_idx ==> final(self).content(from_idx as int) == old(self).content(
                from_idx as int,
            ).filter(other_than(entity)),
            final(self).content(to_idx as int) == (if from_idx == to_idx {
                old(self).content(from_idx as int).filter(other_than(entity))
            } else {
                old(self).content(to_idx as int)
            }).push((entity, carries_blocking(old(self).content(from_idx as int), entity))),
            forall|i: int|
                0 <= i < final(self).len() && i != from_idx && i != to_idx
                    ==> #[trigger] final(self).content(i) == old(self).content(i),
    {
        let blocks = self.remove_entity(entity, from_idx);
        self.index_entity(entity, to_idx, blocks);
        proof {
            let c = self.content(to_idx as int);
            assert(c[c.len() - 1].0 == entity);
        }
    }
}

/// At every moment, in an index that holds its invariant, a tile whose terrain is open is
/// blocked exactly when at least one of its occupants blocks movement.
pub proof fn lemma_blocked_iff_blocking_occupant(s: &SpatialIndex, idx: int)
    requires
        s.wf(),
        0 <= idx < s.len(),
        !s.terrain_blocked[idx],
    ensures
        s.blocked_at(idx) <==> any_blocks(s.content(idx)),
{
}

impl GameMap {
    /// Marks every tile of this level that cannot be walked on as blocked in `index`.
    pub fn populate_blocked(&self, index: &mut SpatialIndex)
        requires
            self.wf(),
            old(index).wf(),
            old(index).len() == self.tiles.len(),
        ensures
            final(index).wf(),
            final(index).tile_content == old(index).tile_content,
            final(index).occupant_blocked == old(index).occupant_blocked,
            forall|i: int|
                0 <= i < final(index).len() ==> #[trigger] final(index).terrain_blocked[i] == !walkable(self.tiles[i]),
    {
        index.populate_blocked_from_map(self);
    }

    /// Empties `index` for this level and sizes it to the level's tile count: no
    /// occupants, nothing blocked.
    pub fn clear_content_index(&self, index: &mut SpatialIndex)
        ensures
            final(index).wf(),
            final(index).len() == self.tiles.len(),
            forall|i: int| 0 <= i < final(index).len() ==> (#[trigger] final(index).content(i)).len() == 0,
            forall|i: int| 0 <= i < final(index).len() ==> !#[trigger] final(index).blocked_at(i),
    {
        index.set_size(self.tiles.len());
    }
}

} // verus!
