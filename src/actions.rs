use vstd::prelude::*;
use rltk::RandomNumberGenerator;
use crate::spatial::{EntityId, SpatialIndex, carries_blocking, holds, other_than};
use crate::map::GameMap;
use crate::tiles::{TileType, walkable};
use crate::builder::{Position, XStart, YStart};
use crate::combat::{EquipmentSlot, ItemLocation, ItemState, Pool, Pools, Attributes};
use crate::initiative::{RunState, VendorMode};
use crate::dice::roll_dice;

verus! {

/// An entity as the spatial index sees it at the start of a tick.
#[derive(PartialEq, Eq, Structural, Clone, Copy, Debug)]
pub struct IndexedEntity {
    pub entity: EntityId,
    pub x: i32,
    pub y: i32,
    pub blocks_tile: bool,
    /// Current hit points, where the entity has pools.
    pub hit_points: Option<i32>,
}

/// The entity is not dead: it has no pools, or at least 1 hit point.
pub open spec fn alive(e: IndexedEntity) -> bool {
    match e.hit_points {
        Some(hp) => hp >= 1,
        None => true,
    }
}

/// The entity stands on `map`.
pub open spec fn on_map(e: IndexedEntity, map: &GameMap) -> bool {
    0 <= e.x < map.width && 0 <= e.y < map.height
}

/// Occupant entry `o` of tile `i` stands for one of the first `k` entities: a living one
/// that stands on tile `i` of a level `w` wide.
pub open spec fn indexed_from(es: Seq<IndexedEntity>, w: int, i: int, o: (EntityId, bool), k: int) -> bool {
    exists|m: int|
        0 <= m < k && alive(#[trigger] es[m]) && es[m].y * w + es[m].x == i && o == (
            es[m].entity,
            es[m].blocks_tile,
        )
}

proof fn lemma_indexed_from_grow(es: Seq<IndexedEntity>, w: int, i: int, o: (EntityId, bool), k: int)
    requires
        indexed_from(es, w, i, o, k),
    ensures
        indexed_from(es, w, i, o, k + 1),
{
    let m = choose|m: int|
        0 <= m < k && alive(#[trigger] es[m]) && es[m].y * w + es[m].x == i && o == (
            es[m].entity,
            es[m].blocks_tile,
        );
    assert(0 <= m < k + 1 && alive(es[m]));
}

/// Rebuilds the spatial index for a new tick: empties it, blocks every tile whose terrain
/// cannot be walked on, and adds every living entity to its tile; dead ones are left out,
/// so every occupant listed is a living entity standing there.
pub fn index_level(index: &mut SpatialIndex, map: &GameMap, entities: &Vec<IndexedEntity>)
    requires
        map.wf(),
        old(index).len() == map.tiles.len(),
        forall|k: int| 0 <= k < entities.len() ==> on_map(#[trigger] entities[k], map),
    ensures
        final(index).wf(),
        final(index).len() == map.tiles.len(),
        forall|i: int|
            0 <= i < final(index).len() ==> #[trigger] final(index).terrain_blocked[i] == !walkable(
                map.tiles[i],
            ),
        forall|k: int|
            0 <= k < entities.len() && alive(#[trigger] entities[k]) ==> holds(
                final(index).content(entities[k].y * map.width + entities[k].x),
                entities[k].entity,
            ),
        forall|i: int, j: int|
            0 <= i < final(index).len() && 0 <= j < final(index).content(i).len() ==> indexed_from(
                entities@,
                map.width as int,
                i,
                #[trigger] final(index).content(i)[j],
                entities.len() as int,
            ),
{
    index.clear();
    let ghost cleared = *index;
    index.populate_blocked_from_map(map);
    proof {
        assert forall|i: int, j: int|
            0 <= i < index.len() && 0 <= j < index.content(i).len() implies indexed_from(
            entities@,
            map.width as int,
            i,
            #[trigger] index.content(i)[j],
            0,
        ) by {
            assert(cleared.content(i).len() == 0);
        }
    }
    let mut k: usize = 0;
    while k < entities.len()
        invariant
            map.wf(),
            index.wf(),
            index.len() == map.tiles.len(),
            k <= entities.len(),
            forall|j: int| 0 <= j < entities.len() ==> on_map(#[trigger] entities[j], map),
            forall|i: int|
                0 <= i < index.len() ==> #[trigger] index.terrain_blocked[i] == !walkable(map.tiles[i]),
            forall|j: int|
                0 <= j < k && alive(#[trigger] entities[j]) ==> holds(
                    index.content(entities[j].y * map.width + entities[j].x),
                    entities[j].entity,
                ),
            forall|i: int, j: int|
                0 <= i < index.len() && 0 <= j < index.content(i).len() ==> indexed_from(
                    entities@,
                    map.width as int,
                    i,
                    #[trigger] index.content(i)[j],
                    k as int,
                ),
        decreases entities.len() - k,
    {
        let e = entities[k];
        let ghost before = *index;
        let is_alive = match e.hit_points {
            Some(hp) => hp >= 1,
            None => true,
        };
        if is_alive {
            let idx = map.xy_idx(e.x, e.y);
            index.index_entity(e.entity, idx, e.blocks_tile);
            proof {
                let c = index.content(idx as int);
                assert(c[c.len() - 1] == (e.entity, e.blocks_tile));
                assert forall|j: int|
                    0 <= j < k + 1 && alive(#[trigger] entities[j]) implies holds(
                    index.content(entities[j].y * map.width + entities[j].x),
                    entities[j].entity,
                ) by {
                    if j < k {
                        let t = entities[j].y * map.width + entities[j].x;
                        assert(0 <= t < map.width * map.height) by (nonlinear_arith)
                            requires
                                0 <= entities[j].x < map.width,
                                0 <= entities[j].y < map.height,
                                t == entities[j].y * map.width + entities[j].x,
                        ;
                        let w = choose|w: int|
                            0 <= w < before.content(t).len() && (#[trigger] before.content(t)[w]).0
                                == entities[j].entity;
                        assert(index.content(t)[w] == before.content(t)[w]);
                    } else {
                        assert(c[c.len() - 1].0 == e.entity);
                    }
                }
            }
        }
        proof {
            assert forall|i: int, j: int|
                0 <= i < index.len() && 0 <= j < index.content(i).len() implies indexed_from(
                entities@,
                map.width as int,
                i,
                #[trigger] index.content(i)[j],
                k as int + 1,
            ) by {
                if is_alive && i == (e.y * map.width + e.x) && j == before.content(i).len() {
                    assert(entities@[k as int] == e);
                    assert(alive(entities@[k as int]));
                } else {
                    assert(index.content(i)[j] == before.content(i)[j]);
                    lemma_indexed_from_grow(entities@, map.width as int, i, index.content(i)[j], k as int);
                }
            }
        }
        k = k + 1;
    }
}

/// Carries out a pending move: the entity leaves its tile for `dest_idx` in the spatial
/// index at once, so later moves this tick see where it now stands, and its position
/// becomes that tile's column and row.
pub fn apply_move(index: &mut SpatialIndex, map: &GameMap, entity: EntityId, pos: &mut Position, dest_idx: usize)
    requires
        map.wf(),
        0 < map.width,
        old(index).wf(),
        old(index).len() == map.tiles.len(),
        0 <= old(pos).x < map.width,
        0 <= old(pos).y < map.height,
        dest_idx < map.tiles.len(),
    ensures
        final(index).wf(),
        final(index).len() == old(index).len(),
        final(pos).y * map.width + final(pos).x == dest_idx,
        0 <= final(pos).x < map.width,
        0 <= final(pos).y < map.height,
        holds(final(index).content(dest_idx as int), entity),
        old(pos).y * map.width + old(pos).x != dest_idx ==> !holds(
            final(index).content(old(pos).y * map.width + old(pos).x),
            entity,
        ),
        final(index).terrain_blocked == old(index).terrain_blocked,
        old(pos).y * map.width + old(pos).x != dest_idx ==> final(index).content(
            old(pos).y * map.width + old(pos).x,
        ) == old(index).content(old(pos).y * map.width + old(pos).x).filter(other_than(entity)),
        final(index).content(dest_idx as int) == (if old(pos).y * map.width + old(pos).x == dest_idx {
            old(index).content(dest_idx as int).filter(other_than(entity))
        } else {
            old(index).content(dest_idx as int)
        }).push(
            (
                entity,
                carries_blocking(old(index).content(old(pos).y * map.width + old(pos).x), entity),
            ),
        ),
        forall|i: int|
            0 <= i < final(index).len() && i != old(pos).y * map.width + old(pos).x && i != dest_idx
                ==> #[trigger] final(index).content(i) == old(index).content(i),
{
    let start_idx = map.xy_idx(pos.x, pos.y);
    index.move_entity(entity, start_idx, dest_idx);
    proof {
        crate::map::lemma_index_coords(map.width as int, map.height as int, dest_idx as int);
    }
    let w = map.width as usize;
    pos.x = (dest_idx % w) as i32;
    pos.y = (dest_idx / w) as i32;
}

/// Whether the player stands on the down stairs.
pub fn try_next_level(map: &GameMap, x: i32, y: i32) -> (r: bool)
    requires
        map.wf(),
        0 <= x < map.width,
        0 <= y < map.height,
    ensures
        r == (map.tiles[y * map.width + x] == TileType::DownStairs),
{
    let idx = map.xy_idx(x, y);
    map.tiles[idx] == TileType::DownStairs
}

/// Whether the player stands on the up stairs.
pub fn try_previous_level(map: &GameMap, x: i32, y: i32) -> (r: bool)
    requires
        map.wf(),
        0 <= x < map.width,
        0 <= y < map.height,
    ensures
        r == (map.tiles[y * map.width + x] == TileType::UpStairs),
{
    let idx = map.xy_idx(x, y);
    map.tiles[idx] == TileType::UpStairs
}

/// Moves item `item` to a new place; other items stay.
fn relocate(items: &mut Vec<ItemState>, item: EntityId, to: ItemLocation)
    ensures
        final(items).len() == old(items).len(),
        forall|k: int|
            0 <= k < final(items).len() ==> #[trigger] final(items)[k] == (if old(items)[k].item == item {
                ItemState { item, location: to }
            } else {
                old(items)[k]
            }),
{
    let ghost before = items@;
    let mut k: usize = 0;
    while k < items.len()
        invariant
            k <= items.len(),
            items.len() == before.len(),
            forall|j: int| k <= j < items.len() ==> #[trigger] items[j] == before[j],
            forall|j: int|
                0 <= j < k ==> #[trigger] items[j] == (if before[j].item == item {
                    ItemState { item, location: to }
                } else {
                    before[j]
                }),
        decreases items.len() - k,
    {
        if items[k].item == item {
            items.set(k, ItemState { item, location: to });
        }
        k = k + 1;
    }
}

/// `collected_by` picks `item` up: it goes into that entity's backpack.
pub fn pick_up_item(items: &mut Vec<ItemState>, item: EntityId, collected_by: EntityId)
    ensures
        final(items).len() == old(items).len(),
        forall|k: int|
            0 <= k < final(items).len() ==> #[trigger] final(items)[k] == (if old(items)[k].item == item {
                ItemState { item, location: ItemLocation::InBackpack { owner: collected_by } }
            } else {
                old(items)[k]
            }),
{
    relocate(items, item, ItemLocation::InBackpack { owner: collected_by });
}

/// `item` is dropped onto tile (`x`, `y`).
pub fn drop_item(items: &mut Vec<ItemState>, item: EntityId, x: i32, y: i32)
    ensures
        final(items).len() == old(items).len(),
        forall|k: int|
            0 <= k < final(items).len() ==> #[trigger] final(items)[k] == (if old(items)[k].item == item {
                ItemState { item, location: ItemLocation::OnGround { x, y } }
            } else {
                old(items)[k]
            }),
{
    relocate(items, item, ItemLocation::OnGround { x, y });
}

/// `owner` takes `item` off and puts it in its backpack.
pub fn remove_equipment(items: &mut Vec<ItemState>, item: EntityId, owner: EntityId)
    ensures
        final(items).len() == old(items).len(),
        forall|k: int|
            0 <= k < final(items).len() ==> #[trigger] final(items)[k] == (if old(items)[k].item == item {
                ItemState { item, location: ItemLocation::InBackpack { owner } }
            } else {
                old(items)[k]
            }),
{
    relocate(items, item, ItemLocation::InBackpack { owner });
}

/// An entity with hit points, as the end of a tick sees it.
#[derive(PartialEq, Eq, Structural, Clone, Copy, Debug)]
pub struct Combatant {
    pub entity: EntityId,
    pub hit_points: i32,
    pub is_player: bool,
}

/// Entities of `cs` that are dead and are not the player, in order.
pub open spec fn doomed(cs: Seq<Combatant>) -> Seq<EntityId>
    decreases cs.len(),
{
    if cs.len() == 0 {
        Seq::empty()
    } else {
        let rest = doomed(cs.drop_last());
        let c = cs.last();
        if c.hit_points < 1 && !c.is_player {
            rest.push(c.entity)
        } else {
            rest
        }
    }
}

/// End of tick: lists, in order, the dead entities to delete; a dead player is never
/// deleted but ends the game.
pub fn delete_the_dead(combatants: &Vec<Combatant>, run_state: &mut RunState) -> (r: Vec<EntityId>)
    ensures
        r@ == doomed(combatants@),
        *final(run_state) == (if exists|k: int|
            0 <= k < combatants.len() && (#[trigger] combatants[k]).is_player && combatants[k].hit_points
                < 1 {
            RunState::GameOver
        } else {
            *old(run_state)
        }),
{
    let mut dead: Vec<EntityId> = Vec::new();
    let mut player_dead = false;
    let mut k: usize = 0;
    while k < combatants.len()
        invariant
            k <= combatants.len(),
            dead@ == doomed(combatants@.take(k as int)),
            player_dead == exists|j: int|
                0 <= j < k && (#[trigger] combatants[j]).is_player && combatants[j].hit_points < 1,
            *run_state == *old(run_state),
        decreases combatants.len() - k,
    {
        let c = combatants[k];
        assert(combatants@.take(k as int + 1).drop_last() =~= combatants@.take(k as int));
        if c.hit_points < 1 {
            if c.is_player {
                player_dead = true;
            } else {
                dead.push(c.entity);
            }
        }
        k = k + 1;
    }
    assert(combatants@.take(combatants.len() as int) =~= combatants@);
    if player_dead {
        *run_state = RunState::GameOver;
    }
    dead
}

/// How one faction feels about another.
#[derive(PartialEq, Eq, Structural, Clone, Copy, Debug)]
pub enum Reaction {
    Ignore,
    Attack,
    Flee,
}

/// What a turn-holding creature decides after looking around.
#[derive(Debug)]
pub enum VisibleDecision {
    /// Attack: walk toward tile `idx` and chase `target`.
    Approach { idx: usize, target: EntityId },
    /// Get away from these tiles.
    Flee { indices: Vec<usize> },
    /// Nothing seen calls for action.
    Nothing,
}

/// Tiles of the `Flee` reactions among `rs`, in order.
pub open spec fn flee_tiles(rs: Seq<(usize, Reaction, EntityId)>) -> Seq<usize>
    decreases rs.len(),
{
    if rs.len() == 0 {
        Seq::empty()
    } else {
        let rest = flee_tiles(rs.drop_last());
        if rs.last().1 == Reaction::Flee {
            rest.push(rs.last().0)
        } else {
            rest
        }
    }
}

/// The last `Attack` reaction among `rs`, if any.
pub open spec fn last_attack(rs: Seq<(usize, Reaction, EntityId)>) -> Option<(usize, EntityId)>
    decreases rs.len(),
{
    if rs.len() == 0 {
        None
    } else if rs.last().1 == Reaction::Attack {
        Some((rs.last().0, rs.last().2))
    } else {
        last_attack(rs.drop_last())
    }
}

/// The decision to attack whoever stands on the tile of `a`.
pub open spec fn approach_of(a: (usize, EntityId)) -> VisibleDecision {
    VisibleDecision::Approach { idx: a.0, target: a.1 }
}

/// Turns the reactions to what a creature sees (tile, reaction, occupant) into one decision:
/// any `Attack` wins, and the last one seen sets the target; failing that, any `Flee` makes
/// it flee from all such tiles.
pub fn evaluate_reactions(reactions: &Vec<(usize, Reaction, EntityId)>) -> (r: VisibleDecision)
    ensures
        last_attack(reactions@) is Some ==> r == approach_of(last_attack(reactions@)->0),
        (last_attack(reactions@) is None && flee_tiles(reactions@).len() > 0) ==> (r matches VisibleDecision::Flee { indices }
            && indices@ == flee_tiles(reactions@)),
        (last_attack(reactions@) is None && flee_tiles(reactions@).len() == 0) ==> (r == VisibleDecision::Nothing),
{
    let mut approach: Option<(usize, EntityId)> = None;
    let mut flee: Vec<usize> = Vec::new();
    let mut k: usize = 0;
    while k < reactions.len()
        invariant
            k <= reactions.len(),
            approach == last_attack(reactions@.take(k as int)),
            flee@ == flee_tiles(reactions@.take(k as int)),
        decreases reactions.len() - k,
    {
        let (idx, reaction, other) = reactions[k];
        assert(reactions@.take(k as int + 1).drop_last() =~= reactions@.take(k as int));
        match reaction {
            Reaction::Attack => {
                approach = Some((idx, other));
            },
            Reaction::Flee => {
                flee.push(idx);
            },
            Reaction::Ignore => {},
        }
        k = k + 1;
    }
    assert(reactions@.take(reactions.len() as int) =~= reactions@);
    match approach {
        Some((idx, target)) => VisibleDecision::Approach { idx, target },
        None => {
            if flee.len() > 0 {
                VisibleDecision::Flee { indices: flee }
            } else {
                VisibleDecision::Nothing
            }
        },
    }
}

/// Where an approaching creature steps: the second tile of a found path (the first is
/// where it stands). It stays put where no path was found or the path has no second tile.
pub fn approach_step(path_found: bool, steps: &Vec<usize>) -> (r: Option<usize>)
    ensures
        r == (if path_found && steps.len() > 1 {
            Some(steps[1])
        } else {
            None
        }),
{
    if path_found && steps.len() > 1 {
        Some(steps[1])
    } else {
        None
    }
}

/// Where a fleeing creature steps: the tile farthest from what it flees, unless that tile
/// is blocked this moment.
pub fn flee_step(target: Option<usize>, index: &SpatialIndex) -> (r: Option<usize>)
    requires
        index.wf(),
        target matches Some(t) ==> t < index.len(),
    ensures
        r == (match target {
            Some(t) => if index.blocked_at(t as int) {
                None
            } else {
                Some(t)
            },
            None => None,
        }),
{
    match target {
        Some(t) => {
            if index.is_blocked(t) {
                None
            } else {
                Some(t)
            }
        },
        None => None,
    }
}

/// Area in which a level's start seed lies, from two rolls of a three-sided die: 1, 2, 3
/// give left, centre, right, and bottom, centre, top.
pub open spec fn start_area(xroll: int, yroll: int) -> (XStart, YStart) {
    (
        if xroll == 1 {
            XStart::LEFT
        } else if xroll == 2 {
            XStart::CENTER
        } else {
            XStart::RIGHT
        },
        if yroll == 1 {
            YStart::BOTTOM
        } else if yroll == 2 {
            YStart::CENTER
        } else {
            YStart::TOP
        },
    )
}

/// Picks the area of the start seed at random.
pub fn random_start_position(rng: &mut RandomNumberGenerator) -> (r: (XStart, YStart))
    ensures
        exists|xroll: int, yroll: int|
            1 <= xroll <= 3 && 1 <= yroll <= 3 && r == #[trigger] start_area(xroll, yroll),
{
    let xroll = roll_dice(rng, 1, 3);
    let x = if xroll == 1 {
        XStart::LEFT
    } else if xroll == 2 {
        XStart::CENTER
    } else {
        XStart::RIGHT
    };
    let yroll = roll_dice(rng, 1, 3);
    let y = if yroll == 1 {
        YStart::BOTTOM
    } else if yroll == 2 {
        YStart::CENTER
    } else {
        YStart::TOP
    };
    proof {
        assert((x, y) == start_area(xroll as int, yroll as int));
    }
    (x, y)
}

/// Penalty added to initiative when an entity carries more than it can.
pub const OVERBURDEN_PENALTY: i32 = 4;

/// Sum of the weights and of the initiative penalties of the first `k` items.
pub open spec fn load_of(carried: Seq<(i32, i32)>, k: int) -> (int, int)
    decreases k,
{
    if k <= 0 {
        (0, 0)
    } else {
        let prev = load_of(carried, k - 1);
        (prev.0 + carried[k - 1].0, prev.1 + carried[k - 1].1)
    }
}

/// Every partial sum of the load fits an `i32`.
pub open spec fn load_fits(carried: Seq<(i32, i32)>) -> bool {
    forall|k: int|
        0 <= k <= carried.len() ==> i32::MIN <= (#[trigger] load_of(carried, k)).0 <= i32::MAX && i32::MIN
            <= load_of(carried, k).1 <= i32::MAX - OVERBURDEN_PENALTY
}

/// Recomputes what an entity carries and wears (weight, initiative penalty of each item):
/// the totals go into its pools, and carrying more than 15 pounds per point of might
/// (base plus modifiers) adds 4 to the penalty. Returns whether it is overburdened.
pub fn apply_encumbrance(pools: &mut Pools, carried: &Vec<(i32, i32)>, attrs: Option<Attributes>) -> (r: bool)
    requires
        load_fits(carried@),
        attrs matches Some(a) ==> i32::MIN <= (a.might.base + a.might.modifiers) * 15 <= i32::MAX,
    ensures
        ({
            let load = load_of(carried@, carried.len() as int);
            &&& r == (attrs matches Some(a) && load.0 > (a.might.base + a.might.modifiers) * 15)
            &&& final(pools).total_weight == load.0
            &&& final(pools).total_initiative_penalty == load.1 + if r { OVERBURDEN_PENALTY as int } else { 0 }
            &&& *final(pools) == (Pools {
                total_weight: final(pools).total_weight,
                total_initiative_penalty: final(pools).total_initiative_penalty,
                ..*old(pools)
            })
        }),
{
    let mut weight: i32 = 0;
    let mut penalty: i32 = 0;
    let mut k: usize = 0;
    while k < carried.len()
        invariant
            k <= carried.len(),
            load_fits(carried@),
            (weight as int, penalty as int) == load_of(carried@, k as int),
        decreases carried.len() - k,
    {
        let (w, p) = carried[k];
        assert(load_of(carried@, k as int + 1) == (weight + w, penalty + p));
        assert(i32::MIN <= load_of(carried@, k as int + 1).0 <= i32::MAX);
        weight = weight + w;
        penalty = penalty + p;
        k = k + 1;
    }
    let over = match attrs {
        Some(a) => {
            let might = a.might.base as i64 + a.might.modifiers as i64;
            weight as i64 > might * 15
        },
        None => false,
    };
    assert(i32::MIN <= load_of(carried@, carried.len() as int).1 <= i32::MAX - OVERBURDEN_PENALTY);
    pools.total_weight = weight;
    pools.total_initiative_penalty = if over {
        penalty + OVERBURDEN_PENALTY
    } else {
        penalty
    };
    over
}

/// A damage entry waiting for the end of the tick.
#[derive(PartialEq, Eq, Structural, Clone, Copy, Debug)]
pub struct QueuedDamage {
    pub victim: EntityId,
    pub amount: i32,
    pub from_player: bool,
}

/// Queues `amount` damage for `victim`; nothing is applied until the damage phase.
pub fn new_dmg(store: &mut Vec<QueuedDamage>, victim: EntityId, amount: i32, from_player: bool)
    ensures
        final(store)@ == old(store)@.push(QueuedDamage { victim, amount, from_player }),
{
    store.push(QueuedDamage { victim, amount, from_player });
}

/// The amounts queued for `victim` among `q`, in order.
pub open spec fn queued_for(q: Seq<QueuedDamage>, victim: EntityId) -> Seq<(i32, bool)>
    decreases q.len(),
{
    if q.len() == 0 {
        Seq::empty()
    } else {
        let rest = queued_for(q.drop_last(), victim);
        if q.last().victim == victim {
            rest.push((q.last().amount, q.last().from_player))
        } else {
            rest
        }
    }
}

/// Everything queued this tick for `victim`, in the order it was queued.
pub fn damage_for(store: &Vec<QueuedDamage>, victim: EntityId) -> (r: Vec<(i32, bool)>)
    ensures
        r@ == queued_for(store@, victim),
{
    let mut r: Vec<(i32, bool)> = Vec::new();
    let mut k: usize = 0;
    while k < store.len()
        invariant
            k <= store.len(),
            r@ == queued_for(store@.take(k as int), victim),
        decreases store.len() - k,
    {
        let d = store[k];
        assert(store@.take(k as int + 1).drop_last() =~= store@.take(k as int));
        if d.victim == victim {
            r.push((d.amount, d.from_player));
        }
        k = k + 1;
    }
    assert(store@.take(store.len() as int) =~= store@);
    r
}

/// A destination a teleporter sends its victim to.
#[derive(PartialEq, Eq, Structural, Clone, Copy, Debug)]
pub struct TeleportTo {
    pub x: i32,
    pub y: i32,
    pub depth: i32,
    pub player_only: bool,
}

/// A trap, or anything else that may fire when stepped on.
#[derive(PartialEq, Eq, Structural, Clone, Copy, Debug)]
pub struct TrapInfo {
    pub entity: EntityId,
    /// It fires when something enters its tile.
    pub entry_trigger: bool,
    pub inflicts_damage: Option<i32>,
    pub teleport: Option<TeleportTo>,
    pub single_activation: bool,
}

/// A place on some level.
#[derive(PartialEq, Eq, Structural, Clone, Copy, Debug)]
pub struct Destination {
    pub x: i32,
    pub y: i32,
    pub depth: i32,
}

/// What the traps on a tile do to the entity that entered it.
#[derive(PartialEq, Eq, Structural, Clone, Copy, Debug)]
pub struct TriggerEffect {
    /// The trap that fired; it is no longer hidden.
    pub trap: EntityId,
    /// Damage it queues for the entity.
    pub damage: Option<i32>,
    /// Where it sends the entity.
    pub teleport: Option<Destination>,
    /// It fires once only and is deleted afterwards.
    pub delete: bool,
}

/// The effect of trap `t` on `mover`; `None` where `t` is the mover itself or does not fire
/// on entry.
pub open spec fn trap_effect(t: TrapInfo, mover: EntityId, mover_is_player: bool) -> Option<TriggerEffect> {
    if t.entity == mover || !t.entry_trigger {
        None
    } else {
        Some(TriggerEffect {
            trap: t.entity,
            damage: t.inflicts_damage,
            teleport: match t.teleport {
                Some(tp) => if !tp.player_only || mover_is_player {
                    Some(Destination { x: tp.x, y: tp.y, depth: tp.depth })
                } else {
                    None
                },
                None => None,
            },
            delete: t.single_activation,
        })
    }
}

/// Effects, in order, of the first `k` things on the tile.
pub open spec fn trap_effects(ts: Seq<TrapInfo>, mover: EntityId, mover_is_player: bool) -> Seq<TriggerEffect>
    decreases ts.len(),
{
    if ts.len() == 0 {
        Seq::empty()
    } else {
        let rest = trap_effects(ts.drop_last(), mover, mover_is_player);
        match trap_effect(ts.last(), mover, mover_is_player) {
            Some(e) => rest.push(e),
            None => rest,
        }
    }
}

/// Fires every trap on the tile an entity has just entered: each one is revealed, queues
/// its damage, sends the entity to its destination (a player-only teleporter ignores
/// others), and is marked for deletion if it works once only.
pub fn trigger_traps(on_tile: &Vec<TrapInfo>, mover: EntityId, mover_is_player: bool) -> (r: Vec<TriggerEffect>)
    ensures
        r@ == trap_effects(on_tile@, mover, mover_is_player),
{
    let mut r: Vec<TriggerEffect> = Vec::new();
    let mut k: usize = 0;
    while k < on_tile.len()
        invariant
            k <= on_tile.len(),
            r@ == trap_effects(on_tile@.take(k as int), mover, mover_is_player),
        decreases on_tile.len() - k,
    {
        let t = on_tile[k];
        assert(on_tile@.take(k as int + 1).drop_last() =~= on_tile@.take(k as int));
        if t.entity != mover && t.entry_trigger {
            let teleport = match t.teleport {
                Some(tp) => {
                    if !tp.player_only || mover_is_player {
                        Some(Destination { x: tp.x, y: tp.y, depth: tp.depth })
                    } else {
                        None
                    }
                },
                None => None,
            };
            r.push(
                TriggerEffect {
                    trap: t.entity,
                    damage: t.inflicts_damage,
                    teleport,
                    delete: t.single_activation,
                },
            );
        }
        k = k + 1;
    }
    assert(on_tile@.take(on_tile.len() as int) =~= on_tile@);
    r
}

/// What a teleport does.
#[derive(PartialEq, Eq, Structural, Clone, Copy, Debug)]
pub enum TeleportAction {
    /// A move within this level, to this tile.
    MoveTo { dest_idx: usize },
    /// The player goes to another level.
    PlayerChangesLevel { x: i32, y: i32, depth: i32 },
    /// Another entity leaves for another level; it no longer stands on this one.
    LeaveLevel { x: i32, y: i32, depth: i32 },
}

/// Carries out a teleport of `entity`, standing at `pos`, to (`x`, `y`) on level `depth`.
/// On this level it becomes an ordinary move; the player changing level switches the run
/// state; any other entity leaving the level is taken off the spatial index at once.
pub fn resolve_teleport(
    index: &mut SpatialIndex,
    map: &GameMap,
    entity: EntityId,
    is_player: bool,
    pos: Position,
    x: i32,
    y: i32,
    depth: i32,
    run_state: &mut RunState,
) -> (r: TeleportAction)
    requires
        map.wf(),
        old(index).wf(),
        old(index).len() == map.tiles.len(),
        0 <= pos.x < map.width,
        0 <= pos.y < map.height,
        depth == map.depth ==> 0 <= x < map.width && 0 <= y < map.height,
    ensures
        final(index).wf(),
        final(index).len() == old(index).len(),
        depth == map.depth ==> r == (TeleportAction::MoveTo { dest_idx: (y * map.width + x) as usize })
            && *final(index) == *old(index) && *final(run_state) == *old(run_state),
        depth != map.depth && is_player ==> r == (TeleportAction::PlayerChangesLevel { x, y, depth })
            && *final(run_state) == (RunState::TeleportingToOtherLevel { x, y, depth })
            && *final(index) == *old(index),
        depth != map.depth && !is_player ==> r == (TeleportAction::LeaveLevel { x, y, depth })
            && !holds(final(index).content(pos.y * map.width + pos.x), entity)
            && *final(run_state) == *old(run_state),
{
    if depth == map.depth {
        let dest_idx = map.xy_idx(x, y);
        TeleportAction::MoveTo { dest_idx }
    } else if is_player {
        *run_state = RunState::TeleportingToOtherLevel { x, y, depth };
        TeleportAction::PlayerChangesLevel { x, y, depth }
    } else {
        let idx = map.xy_idx(pos.x, pos.y);
        index.remove_entity(entity, idx);
        TeleportAction::LeaveLevel { x, y, depth }
    }
}

/// What stands on the tile the player tries to enter.
#[derive(PartialEq, Eq, Structural, Clone, Copy, Debug)]
pub struct Occupant {
    pub entity: EntityId,
    pub is_vendor: bool,
    /// It has hit points, so it can be fought.
    pub has_pools: bool,
    /// Its faction would attack the player, or it has no faction.
    pub hostile: bool,
    pub is_door: bool,
}

/// What the player's move into an occupied tile turns into.
#[derive(PartialEq, Eq, Structural, Clone, Copy, Debug)]
pub enum BumpResult {
    /// Open the trade screen with this merchant.
    Trade { vendor: EntityId },
    /// Swap places with this bystander.
    Swap { other: EntityId },
    /// Attack this creature.
    Attack { target: EntityId },
    /// Open this door.
    OpenDoor { door: EntityId },
}

/// What bumping into `o` does, if anything: a merchant trades; something with hit points
/// that is not hostile swaps places; something hostile with hit points is attacked; a door
/// opens.
pub open spec fn bump_of(o: Occupant) -> Option<BumpResult> {
    if o.is_vendor {
        Some(BumpResult::Trade { vendor: o.entity })
    } else if o.has_pools && !o.hostile {
        Some(BumpResult::Swap { other: o.entity })
    } else if o.has_pools {
        Some(BumpResult::Attack { target: o.entity })
    } else if o.is_door {
        Some(BumpResult::OpenDoor { door: o.entity })
    } else {
        None
    }
}

/// The first occupant, in order, that bumping does something with.
pub open spec fn first_bump(os: Seq<Occupant>) -> Option<BumpResult>
    decreases os.len(),
{
    if os.len() == 0 {
        None
    } else {
        match bump_of(os[0]) {
            Some(b) => Some(b),
            None => first_bump(os.subrange(1, os.len() as int)),
        }
    }
}

/// Decides what the player's step into an occupied tile does: the first occupant that
/// reacts decides it, and an empty or inert tile gives `None`.
pub fn bump_into(occupants: &Vec<Occupant>) -> (r: Option<BumpResult>)
    ensures
        r == first_bump(occupants@),
{
    let mut k: usize = 0;
    assert(occupants@.subrange(0, occupants.len() as int) =~= occupants@);
    while k < occupants.len()
        invariant
            k <= occupants.len(),
            first_bump(occupants@) == first_bump(occupants@.subrange(k as int, occupants.len() as int)),
        decreases occupants.len() - k,
    {
        let o = occupants[k];
        let ghost rest = occupants@.subrange(k as int, occupants.len() as int);
        assert(rest[0] == o);
        assert(rest.subrange(1, rest.len() as int) =~= occupants@.subrange(k as int + 1, occupants.len() as int));
        if o.is_vendor {
            return Some(BumpResult::Trade { vendor: o.entity });
        } else if o.has_pools && !o.hostile {
            return Some(BumpResult::Swap { other: o.entity });
        } else if o.has_pools {
            return Some(BumpResult::Attack { target: o.entity });
        } else if o.is_door {
            return Some(BumpResult::OpenDoor { door: o.entity });
        }
        k = k + 1;
    }
    assert(occupants@.subrange(k as int, occupants.len() as int).len() == 0);
    None
}

/// How hungry an entity is.
#[derive(PartialEq, Eq, Structural, Clone, Copy, Debug)]
pub enum HungerState {
    WellFed,
    Normal,
    Hungry,
    Starving,
}

/// How hungry an entity is, and for how many more turns.
#[derive(PartialEq, Eq, Structural, Clone, Copy, Debug)]
pub struct HungerClock {
    pub state: HungerState,
    pub duration: i32,
}

/// The player waits a turn: one hit point comes back (up to the maximum) unless a hostile
/// creature is in view or the player is hungry or starving.
pub fn skip_turn(player: &mut Pools, hostile_in_view: bool, hunger: Option<HungerState>) -> (r: RunState)
    requires
        old(player).hit_points.current < i32::MAX,
    ensures
        r == RunState::Ticking,
        ({
            let can_heal = !hostile_in_view && hunger != Some(HungerState::Hungry) && hunger != Some(
                HungerState::Starving,
            );
            let hp = old(player).hit_points;
            &&& can_heal ==> final(player).hit_points.current == (if hp.current + 1 < hp.max {
                hp.current + 1
            } else {
                hp.max as int
            })
            &&& !can_heal ==> final(player).hit_points.current == hp.current
            &&& *final(player) == (Pools {
                hit_points: Pool { current: final(player).hit_points.current, ..hp },
                ..*old(player)
            })
        }),
{
    let mut can_heal = !hostile_in_view;
    match hunger {
        Some(HungerState::Hungry) => {
            can_heal = false;
        },
        Some(HungerState::Starving) => {
            can_heal = false;
        },
        _ => {},
    }
    if can_heal {
        let next = player.hit_points.current + 1;
        player.hit_points.current = if next < player.hit_points.max {
            next
        } else {
            player.hit_points.max
        };
    }
    RunState::Ticking
}

/// What a monster does on its turn.
#[derive(PartialEq, Eq, Structural, Clone, Copy, Debug)]
pub enum MonsterAction {
    /// It is confused and loses the turn.
    Confused,
    /// It stands next to the player and attacks.
    Attack,
    /// It sees the player and walks toward them.
    Approach,
    /// Nothing to do.
    Idle,
}

/// A monster's turn: a confused monster loses it (and the confusion wears off by one turn,
/// ending below 1); otherwise it attacks a player within 1.5 tiles (squared distance at
/// most 2) and walks toward a player it sees.
pub fn monster_turn(confusion: &mut Option<i32>, player_dist_sq: i64, sees_player: bool) -> (r: MonsterAction)
    requires
        *old(confusion) matches Some(t) ==> t > i32::MIN,
    ensures
        (*old(confusion)) is Some ==> r == MonsterAction::Confused && *final(confusion) == (if (*old(confusion))->0 - 1 < 1 {
            None
        } else {
            Some(((*old(confusion))->0 - 1) as i32)
        }),
        (*old(confusion)) is None ==> *final(confusion) == None::<i32> && r == (if player_dist_sq <= 2 {
            MonsterAction::Attack
        } else if sees_player {
            MonsterAction::Approach
        } else {
            MonsterAction::Idle
        }),
{
    match *confusion {
        Some(turns) => {
            let left = turns - 1;
            *confusion = if left < 1 {
                None
            } else {
                Some(left)
            };
            MonsterAction::Confused
        },
        None => {
            if player_dist_sq <= 2 {
                MonsterAction::Attack
            } else if sees_player {
                MonsterAction::Approach
            } else {
                MonsterAction::Idle
            }
        },
    }
}

/// What a chasing creature does.
#[derive(PartialEq, Eq, Structural, Clone, Copy, Debug)]
pub enum ChaseDecision {
    /// Step onto this tile, toward the quarry's last known tile.
    Step { idx: usize },
    /// Give up the chase: no path, or already next to the quarry.
    GiveUp,
}

/// Pursuit of a quarry no longer in view: follow the path toward its last known tile, and
/// give up where no path was found or the path is only the step onto the quarry itself.
pub fn chase_step(path_found: bool, steps: &Vec<usize>) -> (r: ChaseDecision)
    ensures
        r == (if path_found && steps.len() > 2 {
            ChaseDecision::Step { idx: steps[1] }
        } else {
            ChaseDecision::GiveUp
        }),
{
    if path_found && steps.len() > 2 {
        ChaseDecision::Step { idx: steps[1] }
    } else {
        ChaseDecision::GiveUp
    }
}

/// The run state to carry on with after one pass of the simulation, given the state the
/// phases left behind: waiting for input, a map reveal (from its first row), a town
/// portal or a level change stop the simulation; anything else keeps it running.
pub fn after_ticking(state: RunState) -> (r: RunState)
    ensures
        r == (match state {
            RunState::AwaitingInput => RunState::AwaitingInput,
            RunState::MagicMapReveal { .. } => RunState::MagicMapReveal { row: 0 },
            RunState::TownPortal => RunState::TownPortal,
            RunState::TeleportingToOtherLevel { x, y, depth } => RunState::TeleportingToOtherLevel {
                x,
                y,
                depth,
            },
            _ => RunState::Ticking,
        }),
{
    match state {
        RunState::AwaitingInput => RunState::AwaitingInput,
        RunState::MagicMapReveal { .. } => RunState::MagicMapReveal { row: 0 },
        RunState::TownPortal => RunState::TownPortal,
        RunState::TeleportingToOtherLevel { x, y, depth } => RunState::TeleportingToOtherLevel {
            x,
            y,
            depth,
        },
        _ => RunState::Ticking,
    }
}

/// One frame of a magic-mapping reveal: every tile of row `row` becomes revealed; after the
/// last row the simulation resumes, otherwise the next row follows.
pub fn reveal_row(map: &mut GameMap, row: i32) -> (r: RunState)
    requires
        old(map).wf(),
        0 <= row < old(map).height,
    ensures
        final(map).wf(),
        final(map).tiles == old(map).tiles,
        final(map).width == old(map).width,
        final(map).height == old(map).height,
        forall|i: int|
            0 <= i < final(map).revealed_tiles.len() ==> #[trigger] final(map).revealed_tiles[i] == (old(map).revealed_tiles[i] || (row * old(map).width <= i < (row + 1) * old(map).width)),
        r == (if row == old(map).height - 1 {
            RunState::Ticking
        } else {
            RunState::MagicMapReveal { row: (row + 1) as i32 }
        }),
{
    let ghost before = map.revealed_tiles@;
    let mut x: i32 = 0;
    while x < map.width
        invariant
            map.wf(),
            map.tiles == old(map).tiles,
            map.width == old(map).width,
            map.height == old(map).height,
            0 <= row < map.height,
            0 <= x <= map.width,
            before.len() == map.revealed_tiles.len(),
            forall|i: int|
                0 <= i < map.revealed_tiles.len() ==> #[trigger] map.revealed_tiles[i] == (before[i] || (row
                    * map.width <= i < row * map.width + x)),
        decreases map.width - x,
    {
        let idx = map.xy_idx(x, row);
        map.revealed_tiles.set(idx, true);
        x = x + 1;
    }
    proof {
        assert((row + 1) * map.width == row * map.width + map.width) by (nonlinear_arith);
    }
    if row == map.height - 1 {
        RunState::Ticking
    } else {
        RunState::MagicMapReveal { row: row + 1 }
    }
}

/// The result of the player's attempt to step.
#[derive(PartialEq, Eq, Structural, Clone, Copy, Debug)]
pub struct PlayerMove {
    /// What the game does next.
    pub run_state: RunState,
    /// What the player bumped into, if anything reacted.
    pub bump: Option<BumpResult>,
}

/// The run state after a step that ends on tile `t`.
pub open spec fn landing_state(t: TileType) -> RunState {
    match t {
        TileType::DownStairs => RunState::NextLevel,
        TileType::UpStairs => RunState::PreviousLevel,
        _ => RunState::Ticking,
    }
}

/// The player at `pos` tries to step by (`dx`, `dy`); `occupants` is what stands on the
/// destination. A step off the level's inner area does nothing. Bumping into a merchant
/// opens trade, into a bystander swaps places with it (both move in the spatial index at
/// once), into a hostile creature attacks it, into a door opens it. Where no swap happened
/// and the destination is not blocked, the player steps onto it, and stairs there change
/// the level.
pub fn try_move_player(
    index: &mut SpatialIndex,
    map: &GameMap,
    player: EntityId,
    pos: &mut Position,
    dx: i32,
    dy: i32,
    occupants: &Vec<Occupant>,
) -> (r: PlayerMove)
    requires
        map.wf(),
        old(index).wf(),
        old(index).len() == map.tiles.len(),
        0 <= old(pos).x < map.width,
        0 <= old(pos).y < map.height,
        -1 <= dx <= 1,
        -1 <= dy <= 1,
    ensures
        final(index).wf(),
        final(index).len() == old(index).len(),
        ({
            let nx = old(pos).x + dx;
            let ny = old(pos).y + dy;
            let dest = ny * map.width + nx;
            let bump = first_bump(occupants@);
            if nx < 1 || nx > map.width - 1 || ny < 1 || ny > map.height - 1 {
                &&& r == (PlayerMove { run_state: RunState::AwaitingInput, bump: None })
                &&& *final(pos) == *old(pos)
                &&& *final(index) == *old(index)
            } else {
                &&& r.bump == bump
                &&& bump matches Some(BumpResult::Swap { other }) ==> {
                    &&& r.run_state == RunState::Ticking
                    &&& *final(pos) == (Position { x: nx as i32, y: ny as i32 })
                    &&& holds(final(index).content(dest), player)
                    &&& dest != old(pos).y * map.width + old(pos).x && other != player ==> holds(
                        final(index).content(old(pos).y * map.width + old(pos).x),
                        other,
                    )
                }
                &&& !(bump matches Some(BumpResult::Swap { .. })) && !old(index).blocked_at(dest) ==> {
                    &&& r.run_state == landing_state(map.tiles[dest])
                    &&& *final(pos) == (Position { x: nx as i32, y: ny as i32 })
                    &&& holds(final(index).content(dest), player)
                }
                &&& !(bump matches Some(BumpResult::Swap { .. })) && old(index).blocked_at(dest) ==> {
                    &&& *final(pos) == *old(pos)
                    &&& *final(index) == *old(index)
                    &&& r.run_state == (match bump {
                        Some(BumpResult::Trade { vendor }) => RunState::ShowVendor {
                            vendor,
                            mode: VendorMode::Sell,
                        },
                        Some(_) => RunState::Ticking,
                        None => RunState::AwaitingInput,
                    })
                }
            }
        }),
{
    let nx = pos.x as i64 + dx as i64;
    let ny = pos.y as i64 + dy as i64;
    if nx < 1 || nx > map.width as i64 - 1 || ny < 1 || ny > map.height as i64 - 1 {
        return PlayerMove { run_state: RunState::AwaitingInput, bump: None };
    }
    let old_idx = map.xy_idx(pos.x, pos.y);
    let dest = map.xy_idx(nx as i32, ny as i32);
    let bump = bump_into(occupants);
    match bump {
        Some(BumpResult::Swap { other }) => {
            index.move_entity(other, dest, old_idx);
            let ghost mid = index.content(old_idx as int);
            index.move_entity(player, old_idx, dest);
            proof {
                if dest != old_idx && other != player {
                    let k = mid.len() - 1;
                    assert(mid[k].0 == other);
                    mid.lemma_filter_contains(other_than(player), k);
                    let f = mid.filter(other_than(player));
                    let j = choose|j: int| 0 <= j < f.len() && f[j] == mid[k];
                    assert(f[j].0 == other);
                }
            }
            *pos = Position { x: nx as i32, y: ny as i32 };
            return PlayerMove { run_state: RunState::Ticking, bump };
        },
        _ => {},
    }
    if !index.is_blocked(dest) {
        index.move_entity(player, old_idx, dest);
        *pos = Position { x: nx as i32, y: ny as i32 };
        let state = match map.tiles[dest] {
            TileType::DownStairs => RunState::NextLevel,
            TileType::UpStairs => RunState::PreviousLevel,
            _ => RunState::Ticking,
        };
        return PlayerMove { run_state: state, bump };
    }
    let state = match bump {
        Some(BumpResult::Trade { vendor }) => RunState::ShowVendor { vendor, mode: VendorMode::Sell },
        Some(_) => RunState::Ticking,
        None => RunState::AwaitingInput,
    };
    PlayerMove { run_state: state, bump }
}

/// Equips `item` on `owner` in `slot`: whatever `owner` wore in that slot goes back to its
/// backpack; other items stay.
pub fn equip_item(items: &mut Vec<ItemState>, item: EntityId, owner: EntityId, slot: EquipmentSlot)
    ensures
        final(items).len() == old(items).len(),
        forall|k: int|
            0 <= k < final(items).len() ==> #[trigger] final(items)[k] == (if old(items)[k].item == item {
                ItemState { item, location: ItemLocation::Equipped { owner, slot } }
            } else if old(items)[k].location == (ItemLocation::Equipped { owner, slot }) {
                ItemState { item: old(items)[k].item, location: ItemLocation::InBackpack { owner } }
            } else {
                old(items)[k]
            }),
{
    let ghost before = items@;
    let mut k: usize = 0;
    while k < items.len()
        invariant
            k <= items.len(),
            items.len() == before.len(),
            forall|j: int| k <= j < items.len() ==> #[trigger] items[j] == before[j],
            forall|j: int|
                0 <= j < k ==> #[trigger] items[j] == (if before[j].item == item {
                    ItemState { item, location: ItemLocation::Equipped { owner, slot } }
                } else if before[j].location == (ItemLocation::Equipped { owner, slot }) {
                    ItemState { item: before[j].item, location: ItemLocation::InBackpack { owner } }
                } else {
                    before[j]
                }),
        decreases items.len() - k,
    {
        let it = items[k];
        if it.item == item {
            items.set(k, ItemState { item, location: ItemLocation::Equipped { owner, slot } });
        } else if it.location == (ItemLocation::Equipped { owner, slot }) {
            items.set(k, ItemState { item: it.item, location: ItemLocation::InBackpack { owner } });
        }
        k = k + 1;
    }
}

/// What using an item does.
#[derive(PartialEq, Eq, Structural, Clone, Copy, Debug)]
pub struct ItemEffects {
    /// Hit points it restores to each target.
    pub heal: Option<i32>,
    /// Damage it deals to each target.
    pub damage: Option<i32>,
    /// Turns of confusion it inflicts on each target.
    pub confusion: Option<i32>,
    /// It feeds the first target.
    pub food: bool,
    /// It reveals the whole level.
    pub magic_mapper: bool,
    /// It carries the user back to town.
    pub town_portal: bool,
    /// It is used up when it works.
    pub consumable: bool,
}

/// How long a meal keeps an entity well fed.
pub const WELL_FED_TURNS: i32 = 20;

/// An entity an item is used on.
#[derive(PartialEq, Eq, Structural, Clone, Copy, Debug)]
pub struct UseTarget {
    pub entity: EntityId,
    pub hit_points: Option<Pool>,
    pub hunger: Option<HungerClock>,
    pub confusion: Option<i32>,
}

/// A target after the item took effect on it (the `k`-th of the list).
pub open spec fn used_on(fx: ItemEffects, t: UseTarget, k: int) -> UseTarget {
    UseTarget {
        entity: t.entity,
        hit_points: match (fx.heal, t.hit_points) {
            (Some(h), Some(p)) => Some(Pool {
                current: if p.current + h < p.max { (p.current + h) as i32 } else { p.max },
                ..p
            }),
            _ => t.hit_points,
        },
        hunger: if fx.food && k == 0 && t.hunger is Some {
            Some(HungerClock { state: HungerState::WellFed, duration: WELL_FED_TURNS })
        } else {
            t.hunger
        },
        confusion: match fx.confusion {
            Some(c) => Some(c),
            None => t.confusion,
        },
    }
}

/// Damage entries an item queues for the targets, in order.
pub open spec fn damage_entries(fx: ItemEffects, ts: Seq<UseTarget>) -> Seq<QueuedDamage> {
    match fx.damage {
        Some(d) => Seq::new(ts.len(), |k: int| QueuedDamage { victim: ts[k].entity, amount: d, from_player: true }),
        None => Seq::empty(),
    }
}

/// Whether the item did its work: one that confuses or damages works only where it has a
/// target; anything else always works.
pub open spec fn item_worked(fx: ItemEffects, n_targets: int) -> bool {
    if fx.confusion is Some {
        n_targets > 0
    } else if fx.damage is Some {
        n_targets > 0
    } else {
        true
    }
}

/// Healing fits an `i32` for every target.
pub open spec fn heal_fits(fx: ItemEffects, ts: Seq<UseTarget>) -> bool {
    forall|k: int|
        0 <= k < ts.len() ==> match (fx.heal, (#[trigger] ts[k]).hit_points) {
            (Some(h), Some(p)) => i32::MIN <= p.current + h <= i32::MAX,
            _ => true,
        }
}

/// Uses an item on its targets: healing (never past the maximum), damage queued as the
/// player's, confusion, a meal for the first target; a magic mapper starts revealing the
/// level and a town portal away from town (depth 1) starts the trip back. Returns whether
/// the item is used up: it must be consumable and have worked.
pub fn use_item(
    fx: &ItemEffects,
    targets: &mut Vec<UseTarget>,
    depth: i32,
    run_state: &mut RunState,
    damage: &mut Vec<QueuedDamage>,
) -> (consumed: bool)
    requires
        heal_fits(*fx, old(targets)@),
    ensures
        final(targets).len() == old(targets).len(),
        forall|k: int|
            0 <= k < final(targets).len() ==> #[trigger] final(targets)[k] == used_on(*fx, old(targets)[k], k),
        final(damage)@ == old(damage)@ + damage_entries(*fx, old(targets)@),
        *final(run_state) == (if fx.town_portal && depth != 1 {
            RunState::TownPortal
        } else if fx.magic_mapper {
            RunState::MagicMapReveal { row: 0 }
        } else {
            *old(run_state)
        }),
        consumed == (fx.consumable && item_worked(*fx, old(targets).len() as int)),
{
    if fx.magic_mapper {
        *run_state = RunState::MagicMapReveal { row: 0 };
    }
    if fx.town_portal && depth != 1 {
        *run_state = RunState::TownPortal;
    }
    let ghost before = targets@;
    let ghost dmg0 = damage@;
    let mut k: usize = 0;
    while k < targets.len()
        invariant
            k <= targets.len(),
            targets.len() == before.len(),
            heal_fits(*fx, before),
            forall|j: int| k <= j < targets.len() ==> #[trigger] targets[j] == before[j],
            forall|j: int| 0 <= j < k ==> #[trigger] targets[j] == used_on(*fx, before[j], j),
            damage@ == dmg0 + damage_entries(*fx, before).take(
                if fx.damage is Some { k as int } else { 0 },
            ),
        decreases targets.len() - k,
    {
        let t = targets[k];
        let hit_points = match (fx.heal, t.hit_points) {
            (Some(h), Some(p)) => {
                assert(i32::MIN <= p.current + h <= i32::MAX);
                let healed = p.current + h;
                Some(Pool { max: p.max, current: if healed < p.max { healed } else { p.max } })
            },
            _ => t.hit_points,
        };
        let hunger = if fx.food && k == 0 && t.hunger.is_some() {
            Some(HungerClock { state: HungerState::WellFed, duration: WELL_FED_TURNS })
        } else {
            t.hunger
        };
        let confusion = match fx.confusion {
            Some(c) => Some(c),
            None => t.confusion,
        };
        targets.set(k, UseTarget { entity: t.entity, hit_points, hunger, confusion });
        match fx.damage {
            Some(d) => {
                new_dmg(damage, t.entity, d, true);
                assert(damage_entries(*fx, before).take(k as int + 1) =~= damage_entries(*fx, before).take(
                    k as int,
                ).push(QueuedDamage { victim: t.entity, amount: d, from_player: true }));
            },
            None => {},
        }
        k = k + 1;
    }
    proof {
        if fx.damage is Some {
            assert(damage_entries(*fx, before).take(k as int) =~= damage_entries(*fx, before));
        } else {
            assert(damage_entries(*fx, before).take(0) =~= damage_entries(*fx, before));
        }
    }
    let worked = if fx.confusion.is_some() {
        targets.len() > 0
    } else if fx.damage.is_some() {
        targets.len() > 0
    } else {
        true
    };
    fx.consumable && worked
}

/// The last item of the first `k` lying on tile (`x`, `y`).
pub open spec fn last_item_at(items: Seq<ItemState>, x: i32, y: i32, k: int) -> Option<EntityId>
    decreases k,
{
    if k <= 0 {
        None
    } else if items[k - 1].location == (ItemLocation::OnGround { x, y }) {
        Some(items[k - 1].item)
    } else {
        last_item_at(items, x, y, k - 1)
    }
}

/// The item the player picks up at (`x`, `y`): the last one listed there, if any.
pub fn get_item(items: &Vec<ItemState>, x: i32, y: i32) -> (r: Option<EntityId>)
    ensures
        r == last_item_at(items@, x, y, items.len() as int),
{
    let mut found: Option<EntityId> = None;
    let mut k: usize = 0;
    while k < items.len()
        invariant
            k <= items.len(),
            found == last_item_at(items@, x, y, k as int),
        decreases items.len() - k,
    {
        if items[k].location == (ItemLocation::OnGround { x, y }) {
            found = Some(items[k].item);
        }
        k = k + 1;
    }
    found
}

/// A consumable the player carries, with its range where it must be aimed.
#[derive(PartialEq, Eq, Structural, Clone, Copy, Debug)]
pub struct CarriedConsumable {
    pub item: EntityId,
    pub range: Option<i32>,
}

/// What a consumable hotkey does.
#[derive(PartialEq, Eq, Structural, Clone, Copy, Debug)]
pub enum HotkeyAction {
    /// Aim the item first.
    Target { item: EntityId, range: i32 },
    /// Use the item at once.
    Use { item: EntityId },
    /// No item under that key.
    Nothing,
}

/// Hotkey `key` (counting from 0) picks the `key`-th carried consumable: an aimed one opens
/// targeting, any other is used at once.
pub fn use_consumable_hotkey(carried: &Vec<CarriedConsumable>, key: usize) -> (r: HotkeyAction)
    ensures
        key >= carried.len() ==> r == HotkeyAction::Nothing,
        key < carried.len() ==> r == (match carried[key as int].range {
            Some(range) => HotkeyAction::Target { item: carried[key as int].item, range },
            None => HotkeyAction::Use { item: carried[key as int].item },
        }),
{
    if key < carried.len() {
        let c = carried[key];
        match c.range {
            Some(range) => HotkeyAction::Target { item: c.item, range },
            None => HotkeyAction::Use { item: c.item },
        }
    } else {
        HotkeyAction::Nothing
    }
}

} // verus!
