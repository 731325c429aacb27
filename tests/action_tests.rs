use shadorogue::actions::{try_move_player, PlayerMove, after_ticking, chase_step, monster_turn, reveal_row, ChaseDecision, MonsterAction};
use shadorogue::actions::{
    bump_into, damage_for, new_dmg, resolve_teleport, skip_turn, trigger_traps, BumpResult,
    Destination, HungerState, Occupant, QueuedDamage, TeleportAction, TeleportTo, TrapInfo,
};
use shadorogue::builder::Position;
use shadorogue::combat::{Pool, Pools};
use shadorogue::distance::get_available_exits;
use shadorogue::initiative::RunState;
use shadorogue::map::GameMap;
use shadorogue::spatial::{EntityId, SpatialIndex};
use shadorogue::tiles::TileType;

fn e(index: u32) -> EntityId {
    EntityId { index, generation: 1 }
}

fn hurt_player(current: i32, max: i32) -> Pools {
    Pools {
        hit_points: Pool { max, current },
        mana: Pool { max: 0, current: 0 },
        xp: 0,
        level: 1,
        total_weight: 0,
        total_initiative_penalty: 0,
        gold: 0,
        god_mode: false,
    }
}

#[test]
fn damage_is_queued_per_victim() {
    let mut q: Vec<QueuedDamage> = Vec::new();
    new_dmg(&mut q, e(1), 5, true);
    new_dmg(&mut q, e(2), 3, false);
    new_dmg(&mut q, e(1), 2, false);
    assert_eq!(q.len(), 3);
    assert_eq!(damage_for(&q, e(1)), vec![(5, true), (2, false)]);
    assert_eq!(damage_for(&q, e(2)), vec![(3, false)]);
    assert!(damage_for(&q, e(3)).is_empty());
}

#[test]
fn traps_fire_on_entry() {
    let spikes = TrapInfo { entity: e(5), entry_trigger: true, inflicts_damage: Some(6), teleport: None, single_activation: true };
    let portal = TrapInfo {
        entity: e(6),
        entry_trigger: true,
        inflicts_damage: None,
        teleport: Some(TeleportTo { x: 3, y: 4, depth: 2, player_only: true }),
        single_activation: false,
    };
    let rug = TrapInfo { entity: e(7), entry_trigger: false, inflicts_damage: Some(9), teleport: None, single_activation: false };
    let on_tile = vec![spikes, portal, rug];
    let fx = trigger_traps(&on_tile, e(1), true);
    assert_eq!(fx.len(), 2);
    assert_eq!(fx[0].trap, e(5));
    assert_eq!(fx[0].damage, Some(6));
    assert!(fx[0].delete);
    assert_eq!(fx[1].teleport, Some(Destination { x: 3, y: 4, depth: 2 }));
    let fx = trigger_traps(&on_tile, e(2), false);
    assert_eq!(fx[1].teleport, None);
    let fx = trigger_traps(&on_tile, e(5), false);
    assert_eq!(fx.len(), 1);
    assert_eq!(fx[0].trap, e(6));
}

#[test]
fn teleports_by_depth() {
    let map = GameMap::new(4, 5, 5, "x".to_string());
    let mut index = SpatialIndex::new(25);
    index.index_entity(e(1), 6, true);
    let mut state = RunState::Ticking;
    let here = Position { x: 1, y: 1 };
    let r = resolve_teleport(&mut index, &map, e(1), false, here, 3, 2, 4, &mut state);
    assert_eq!(r, TeleportAction::MoveTo { dest_idx: 13 });
    assert_eq!(index.tile_content(6), vec![e(1)]);
    let r = resolve_teleport(&mut index, &map, e(9), true, here, 7, 8, 1, &mut state);
    assert_eq!(r, TeleportAction::PlayerChangesLevel { x: 7, y: 8, depth: 1 });
    assert_eq!(state, RunState::TeleportingToOtherLevel { x: 7, y: 8, depth: 1 });
    let mut state = RunState::Ticking;
    let r = resolve_teleport(&mut index, &map, e(1), false, here, 7, 8, 9, &mut state);
    assert_eq!(r, TeleportAction::LeaveLevel { x: 7, y: 8, depth: 9 });
    assert!(index.tile_content(6).is_empty());
    assert!(!index.is_blocked(6));
    assert_eq!(state, RunState::Ticking);
}

#[test]
fn bumping_into_things() {
    let plain = Occupant { entity: e(1), is_vendor: false, has_pools: false, hostile: true, is_door: false };
    let door = Occupant { entity: e(2), is_door: true, ..plain };
    let orc = Occupant { entity: e(3), has_pools: true, ..plain };
    let villager = Occupant { entity: e(4), has_pools: true, hostile: false, ..plain };
    let shop = Occupant { entity: e(5), is_vendor: true, ..plain };
    assert_eq!(bump_into(&vec![]), None);
    assert_eq!(bump_into(&vec![plain]), None);
    assert_eq!(bump_into(&vec![plain, door]), Some(BumpResult::OpenDoor { door: e(2) }));
    assert_eq!(bump_into(&vec![orc, door]), Some(BumpResult::Attack { target: e(3) }));
    assert_eq!(bump_into(&vec![villager]), Some(BumpResult::Swap { other: e(4) }));
    assert_eq!(bump_into(&vec![plain, shop, orc]), Some(BumpResult::Trade { vendor: e(5) }));
}

#[test]
fn waiting_heals_when_safe_and_fed() {
    let mut p = hurt_player(5, 10);
    assert_eq!(skip_turn(&mut p, false, None), RunState::Ticking);
    assert_eq!(p.hit_points.current, 6);
    let mut p = hurt_player(10, 10);
    skip_turn(&mut p, false, Some(HungerState::WellFed));
    assert_eq!(p.hit_points.current, 10);
    let mut p = hurt_player(5, 10);
    skip_turn(&mut p, true, None);
    assert_eq!(p.hit_points.current, 5);
    skip_turn(&mut p, false, Some(HungerState::Hungry));
    assert_eq!(p.hit_points.current, 5);
    skip_turn(&mut p, false, Some(HungerState::Starving));
    assert_eq!(p.hit_points.current, 5);
}

#[test]
fn exits_list_allowed_steps_in_order() {
    let mut map = GameMap::new(1, 4, 4, "x".to_string());
    for idx in [5usize, 6, 9, 10] {
        map.tiles[idx] = TileType::Floor;
    }
    map.tiles[10] = TileType::Road;
    let blocked = map.terrain_blocked();
    let exits = get_available_exits(&map.tiles, &blocked, 4, 4, 5);
    assert_eq!(exits, vec![(6, 1000), (9, 1000), (10, 1160)]);
    map.tiles[9] = TileType::Wall;
    let blocked = map.terrain_blocked();
    let exits = get_available_exits(&map.tiles, &blocked, 4, 4, 5);
    assert_eq!(exits, vec![(6, 1000)]);
}

#[test]
fn monster_turns() {
    let mut confused = Some(2);
    assert_eq!(monster_turn(&mut confused, 1, true), MonsterAction::Confused);
    assert_eq!(confused, Some(1));
    assert_eq!(monster_turn(&mut confused, 1, true), MonsterAction::Confused);
    assert_eq!(confused, None);
    assert_eq!(monster_turn(&mut confused, 2, false), MonsterAction::Attack);
    assert_eq!(monster_turn(&mut confused, 4, true), MonsterAction::Approach);
    assert_eq!(monster_turn(&mut confused, 4, false), MonsterAction::Idle);
}

#[test]
fn chasing() {
    assert_eq!(chase_step(true, &vec![1, 2, 3]), ChaseDecision::Step { idx: 2 });
    assert_eq!(chase_step(true, &vec![1, 2]), ChaseDecision::GiveUp);
    assert_eq!(chase_step(false, &vec![1, 2, 3]), ChaseDecision::GiveUp);
}

#[test]
fn simulation_stops_for_mode_changes() {
    assert_eq!(after_ticking(RunState::AwaitingInput), RunState::AwaitingInput);
    assert_eq!(after_ticking(RunState::MagicMapReveal { row: 7 }), RunState::MagicMapReveal { row: 0 });
    assert_eq!(after_ticking(RunState::TownPortal), RunState::TownPortal);
    assert_eq!(
        after_ticking(RunState::TeleportingToOtherLevel { x: 1, y: 2, depth: 3 }),
        RunState::TeleportingToOtherLevel { x: 1, y: 2, depth: 3 }
    );
    assert_eq!(after_ticking(RunState::Ticking), RunState::Ticking);
    assert_eq!(after_ticking(RunState::GameOver), RunState::Ticking);
}

#[test]
fn map_reveal_goes_row_by_row() {
    let mut map = GameMap::new(1, 3, 2, "x".to_string());
    assert_eq!(reveal_row(&mut map, 0), RunState::MagicMapReveal { row: 1 });
    assert_eq!(map.revealed_tiles, vec![true, true, true, false, false, false]);
    assert_eq!(reveal_row(&mut map, 1), RunState::Ticking);
    assert!(map.revealed_tiles.iter().all(|r| *r));
}

fn open_level() -> GameMap {
    let mut map = GameMap::new(1, 5, 5, "x".to_string());
    for y in 1..4 {
        for x in 1..4 {
            let i = map.xy_idx(x, y);
            map.tiles[i] = TileType::Floor;
        }
    }
    map
}

fn level_index(map: &GameMap) -> SpatialIndex {
    let mut index = SpatialIndex::new(25);
    index.populate_blocked_from_map(map);
    index
}

#[test]
fn player_steps_and_takes_stairs() {
    let mut map = open_level();
    map.tiles[13] = TileType::DownStairs;
    let mut index = level_index(&map);
    index.index_entity(e(0), 12, true);
    let mut pos = Position { x: 2, y: 2 };
    let r = try_move_player(&mut index, &map, e(0), &mut pos, 1, 0, &vec![]);
    assert_eq!(r, PlayerMove { run_state: RunState::NextLevel, bump: None });
    assert_eq!(pos, Position { x: 3, y: 2 });
    assert_eq!(index.tile_content(13), vec![e(0)]);
    let r = try_move_player(&mut index, &map, e(0), &mut pos, 0, -1, &vec![]);
    assert_eq!(r.run_state, RunState::Ticking);
    assert_eq!(pos, Position { x: 3, y: 1 });
}

#[test]
fn player_stays_inside_and_off_walls() {
    let map = open_level();
    let mut index = level_index(&map);
    index.index_entity(e(0), 6, true);
    let mut pos = Position { x: 1, y: 1 };
    let r = try_move_player(&mut index, &map, e(0), &mut pos, -1, -1, &vec![]);
    assert_eq!(r, PlayerMove { run_state: RunState::AwaitingInput, bump: None });
    assert_eq!(pos, Position { x: 1, y: 1 });
    let mut map2 = open_level();
    map2.tiles[7] = TileType::Wall;
    let mut index2 = level_index(&map2);
    let r = try_move_player(&mut index2, &map2, e(0), &mut pos, 1, 0, &vec![]);
    assert_eq!(r.run_state, RunState::AwaitingInput);
    assert_eq!(pos, Position { x: 1, y: 1 });
}

#[test]
fn player_attacks_swaps_and_trades() {
    let map = open_level();
    let mut index = level_index(&map);
    index.index_entity(e(0), 12, true);
    index.index_entity(e(3), 13, true);
    let orc = Occupant { entity: e(3), is_vendor: false, has_pools: true, hostile: true, is_door: false };
    let mut pos = Position { x: 2, y: 2 };
    let r = try_move_player(&mut index, &map, e(0), &mut pos, 1, 0, &vec![orc]);
    assert_eq!(r, PlayerMove { run_state: RunState::Ticking, bump: Some(BumpResult::Attack { target: e(3) }) });
    assert_eq!(pos, Position { x: 2, y: 2 });

    let villager = Occupant { hostile: false, ..orc };
    let r = try_move_player(&mut index, &map, e(0), &mut pos, 1, 0, &vec![villager]);
    assert_eq!(r, PlayerMove { run_state: RunState::Ticking, bump: Some(BumpResult::Swap { other: e(3) }) });
    assert_eq!(pos, Position { x: 3, y: 2 });
    assert_eq!(index.tile_content(13), vec![e(0)]);
    assert_eq!(index.tile_content(12), vec![e(3)]);

    let shop = Occupant { is_vendor: true, ..orc };
    let r = try_move_player(&mut index, &map, e(0), &mut pos, -1, 0, &vec![shop]);
    assert_eq!(r.run_state, RunState::ShowVendor { vendor: e(3), mode: shadorogue::initiative::VendorMode::Sell });
    assert_eq!(pos, Position { x: 3, y: 2 });
}
