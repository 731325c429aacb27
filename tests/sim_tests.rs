use shadorogue::actions::{
    apply_encumbrance, apply_move, approach_step, delete_the_dead, drop_item, evaluate_reactions,
    flee_step, index_level, pick_up_item, random_start_position, remove_equipment, try_next_level,
    try_previous_level, Combatant, IndexedEntity, Reaction, VisibleDecision,
};
use shadorogue::builder::{Position, XStart, YStart};
use shadorogue::combat::{
    apply_damage, apply_damage_and_index, attack_hits, attr_bonus, drop_carried_items,
    gain_experience, mana_at_level, melee_attack, player_hp_at_level, resolve_attack,
    select_weapon, skill_bonus, Attacker, Attribute, Attributes, Defender, ItemLocation,
    EquipmentSlot, ItemState, MeleeOutcome, MeleeWeapon, NaturalAttack, Pool, Pools, Skill, Skills,
    WeaponAttribute,
};
use shadorogue::initiative::{initiative_step, run_initiative, RunState, TurnActor, TurnOutcome};
use shadorogue::map::GameMap;
use shadorogue::spatial::{EntityId, SpatialIndex};
use shadorogue::tiles::TileType;

fn ent(index: u32) -> EntityId {
    EntityId { index, generation: 0 }
}

fn plain_attr(bonus: i32) -> Attribute {
    Attribute { base: 10, modifiers: 0, bonus }
}

fn attrs() -> Attributes {
    Attributes {
        might: plain_attr(0),
        fitness: plain_attr(0),
        quickness: plain_attr(0),
        intelligence: plain_attr(0),
    }
}

fn trained() -> Skills {
    Skills { melee: Some(0), defense: Some(0), magic: None }
}

fn pools(hp: i32) -> Pools {
    Pools {
        hit_points: Pool { max: hp, current: hp },
        mana: Pool { max: 4, current: 4 },
        xp: 0,
        level: 1,
        total_weight: 0,
        total_initiative_penalty: 0,
        gold: 0,
        god_mode: false,
    }
}

fn fist() -> MeleeWeapon {
    MeleeWeapon { attribute: WeaponAttribute::Might, dmg_n_dice: 1, dmg_die_type: 4, dmg_bonus: 0, hit_bonus: 0 }
}

#[test]
fn blocked_iff_a_blocking_occupant_remains() {
    let mut index = SpatialIndex::new(4);
    assert!(!index.is_blocked(2));
    index.index_entity(ent(1), 2, false);
    assert!(!index.is_blocked(2));
    index.index_entity(ent(2), 2, true);
    assert!(index.is_blocked(2));
    index.move_entity(ent(2), 2, 3);
    assert!(!index.is_blocked(2));
    assert!(index.is_blocked(3));
    assert_eq!(index.tile_content(2), vec![ent(1)]);
    assert_eq!(index.tile_content(3), vec![ent(2)]);
    index.index_entity(ent(3), 3, true);
    index.move_entity(ent(2), 3, 0);
    assert!(index.is_blocked(3));
    index.move_entity(ent(3), 3, 0);
    assert!(!index.is_blocked(3));
    assert_eq!(index.tile_content(0), vec![ent(2), ent(3)]);
}

#[test]
fn clearing_and_terrain() {
    let mut map = GameMap::new(1, 3, 1, "x".to_string());
    map.tiles[1] = TileType::Floor;
    let mut index = SpatialIndex::new(3);
    index.index_entity(ent(1), 1, true);
    index.clear();
    assert!(index.tile_content(1).is_empty());
    assert!(!index.is_blocked(1));
    index.populate_blocked_from_map(&map);
    assert!(index.is_blocked(0));
    assert!(!index.is_blocked(1));
    index.set_size(5);
    assert!(!index.is_blocked(4));
}

#[test]
fn remove_entity_reports_blocking() {
    let mut index = SpatialIndex::new(2);
    index.index_entity(ent(1), 0, true);
    index.index_entity(ent(2), 0, false);
    assert!(index.remove_entity(ent(1), 0));
    assert!(!index.is_blocked(0));
    assert!(!index.remove_entity(ent(2), 0));
    assert!(index.tile_content(0).is_empty());
}

#[test]
fn index_rebuild_skips_the_dead() {
    let mut map = GameMap::new(1, 3, 3, "x".to_string());
    map.tiles[4] = TileType::Floor;
    let mut index = SpatialIndex::new(9);
    let entities = vec![
        IndexedEntity { entity: ent(1), x: 1, y: 1, blocks_tile: true, hit_points: Some(0) },
        IndexedEntity { entity: ent(2), x: 1, y: 1, blocks_tile: false, hit_points: None },
        IndexedEntity { entity: ent(3), x: 1, y: 1, blocks_tile: true, hit_points: Some(4) },
    ];
    index_level(&mut index, &map, &entities);
    assert_eq!(index.tile_content(4), vec![ent(2), ent(3)]);
    assert!(index.is_blocked(4));
    assert!(index.is_blocked(0));
}

#[test]
fn death_leaves_the_index_at_once() {
    let mut map = GameMap::new(1, 3, 1, "x".to_string());
    let mut index = SpatialIndex::new(3);
    index.index_entity(ent(7), 1, true);
    index.index_entity(ent(8), 1, false);
    let mut victim = pools(5);
    let r = apply_damage_and_index(&mut map, &mut index, ent(7), 1, &mut victim, &vec![(6, true)]);
    assert_eq!(map.bloodstains, vec![false, true, false]);
    assert!(r.dead);
    assert!(r.killed_by_player);
    assert_eq!(index.tile_content(1), vec![ent(8)]);
    assert!(!index.is_blocked(1));
}

#[test]
fn survivor_stays_indexed() {
    let mut map = GameMap::new(1, 3, 1, "x".to_string());
    let mut index = SpatialIndex::new(3);
    index.index_entity(ent(7), 1, true);
    let mut victim = pools(5);
    let r = apply_damage_and_index(&mut map, &mut index, ent(7), 1, &mut victim, &vec![]);
    assert!(!r.dead);
    assert_eq!(map.bloodstains, vec![false, false, false]);
    let r = apply_damage_and_index(&mut map, &mut index, ent(7), 1, &mut victim, &vec![(2, false)]);
    assert!(map.bloodstains[1]);
    assert!(!r.dead);
    assert_eq!(victim.hit_points.current, 3);
    assert_eq!(index.tile_content(1), vec![ent(7)]);
}

#[test]
fn moves_update_index_and_position() {
    let map = GameMap::new(1, 4, 3, "x".to_string());
    let mut index = SpatialIndex::new(12);
    index.index_entity(ent(1), 5, true);
    let mut pos = Position { x: 1, y: 1 };
    apply_move(&mut index, &map, ent(1), &mut pos, 10);
    assert_eq!(pos, Position { x: 2, y: 2 });
    assert!(index.tile_content(5).is_empty());
    assert_eq!(index.tile_content(10), vec![ent(1)]);
    assert!(index.is_blocked(10));
}

#[test]
fn stairs_checks() {
    let mut map = GameMap::new(1, 3, 3, "x".to_string());
    map.tiles[4] = TileType::DownStairs;
    map.tiles[5] = TileType::UpStairs;
    assert!(try_next_level(&map, 1, 1));
    assert!(!try_previous_level(&map, 1, 1));
    assert!(try_previous_level(&map, 2, 1));
    assert!(!try_next_level(&map, 0, 0));
}

#[test]
fn countdown_ticks_down() {
    let mut a = TurnActor {
        entity: ent(1), initiative: 5, x: 0, y: 0, quickness_bonus: Some(1),
        initiative_penalty: None, is_player: false,
    };
    assert_eq!(initiative_step(&mut a, 3, 0, 0), TurnOutcome::Waiting);
    assert_eq!(a.initiative, 4);
}

#[test]
fn expired_countdown_rerolls_and_grants() {
    let mut a = TurnActor {
        entity: ent(1), initiative: 1, x: 20, y: 0, quickness_bonus: Some(1),
        initiative_penalty: Some(2), is_player: false,
    };
    assert_eq!(initiative_step(&mut a, 3, 0, 0), TurnOutcome::Granted);
    assert_eq!(a.initiative, 10);
}

#[test]
fn far_actor_is_suppressed() {
    let mut a = TurnActor {
        entity: ent(1), initiative: 0, x: 21, y: 0, quickness_bonus: None,
        initiative_penalty: None, is_player: false,
    };
    assert_eq!(initiative_step(&mut a, 6, 0, 0), TurnOutcome::Suppressed);
    assert_eq!(a.initiative, 12);
    let mut b = TurnActor { x: 15, y: 14, initiative: 1, ..a };
    assert_eq!(initiative_step(&mut b, 1, 0, 0), TurnOutcome::Suppressed);
}

#[test]
fn player_turn_waits_for_input() {
    let mut rng = rltk::RandomNumberGenerator::seeded(5);
    let mut actors = vec![
        TurnActor { entity: ent(1), initiative: 1, x: 50, y: 50, quickness_bonus: None, initiative_penalty: None, is_player: true },
        TurnActor { entity: ent(2), initiative: 3, x: 0, y: 0, quickness_bonus: None, initiative_penalty: None, is_player: false },
        TurnActor { entity: ent(3), initiative: 1, x: 55, y: 55, quickness_bonus: None, initiative_penalty: None, is_player: false },
        TurnActor { entity: ent(4), initiative: 1, x: 100, y: 100, quickness_bonus: None, initiative_penalty: None, is_player: false },
    ];
    let mut state = RunState::Ticking;
    let out = run_initiative(&mut actors, &mut rng, &mut state, 50, 50);
    assert_eq!(
        out,
        vec![TurnOutcome::PlayerTurn, TurnOutcome::Waiting, TurnOutcome::Granted, TurnOutcome::Suppressed]
    );
    assert_eq!(state, RunState::AwaitingInput);
    assert!(actors[0].initiative >= 7 && actors[0].initiative <= 12);
    assert_eq!(actors[1].initiative, 2);
}

#[test]
fn scheduler_idle_unless_ticking() {
    let mut rng = rltk::RandomNumberGenerator::seeded(5);
    let mut actors = vec![TurnActor {
        entity: ent(1), initiative: 1, x: 0, y: 0, quickness_bonus: None, initiative_penalty: None, is_player: false,
    }];
    let mut state = RunState::AwaitingInput;
    let out = run_initiative(&mut actors, &mut rng, &mut state, 0, 0);
    assert!(out.is_empty());
    assert_eq!(actors[0].initiative, 1);
    assert_eq!(state, RunState::AwaitingInput);
}

#[test]
fn natural_one_always_misses() {
    let mut a = attrs();
    a.might.bonus = 50;
    let attacker = Attacker { attributes: a, skills: trained(), weapon: fist(), well_fed: false };
    let defender = Defender { attributes: attrs(), skills: trained(), base_armor_class: 5, armor_item_bonus: 0 };
    assert_eq!(resolve_attack(&attacker, &defender, 1, 3), MeleeOutcome::Fumble);
    assert!(!attack_hits(1, 51, 5));
}

#[test]
fn natural_twenty_always_hits() {
    let mut a = attrs();
    a.might.bonus = -50;
    let attacker = Attacker { attributes: a, skills: trained(), weapon: fist(), well_fed: false };
    let defender = Defender { attributes: attrs(), skills: trained(), base_armor_class: 5, armor_item_bonus: 0 };
    assert_eq!(resolve_attack(&attacker, &defender, 20, 3), MeleeOutcome::Hit { damage: 0 });
    assert!(attack_hits(20, -30, 5));
}

#[test]
fn ordinary_rolls_must_beat_armor() {
    let attacker = Attacker { attributes: attrs(), skills: trained(), weapon: fist(), well_fed: true };
    let defender = Defender { attributes: attrs(), skills: trained(), base_armor_class: 10, armor_item_bonus: 2 };
    // 12 + 1 (well fed) = 13 > 12
    assert_eq!(resolve_attack(&attacker, &defender, 12, 3), MeleeOutcome::Hit { damage: 3 });
    // 11 + 1 = 12, not above 12
    assert_eq!(resolve_attack(&attacker, &defender, 11, 3), MeleeOutcome::Miss);
    let untrained = Skills { melee: None, defense: None, magic: None };
    let attacker = Attacker { attributes: attrs(), skills: untrained, weapon: fist(), well_fed: false };
    // an untrained melee skill takes 4 off the damage, once: 4 - 4 stays at 0, 6 - 4 is 2
    assert_eq!(resolve_attack(&attacker, &defender, 20, 4), MeleeOutcome::Hit { damage: 0 });
    assert_eq!(resolve_attack(&attacker, &defender, 20, 6), MeleeOutcome::Hit { damage: 2 });
    let skilled = Skills { melee: Some(1), defense: None, magic: None };
    let attacker = Attacker { attributes: attrs(), skills: skilled, weapon: fist(), well_fed: false };
    assert_eq!(resolve_attack(&attacker, &defender, 20, 5), MeleeOutcome::Hit { damage: 6 });
}

#[test]
fn attribute_and_skill_bonuses() {
    assert_eq!(attr_bonus(10), 0);
    assert_eq!(attr_bonus(16), 3);
    assert_eq!(attr_bonus(9), 0);
    assert_eq!(attr_bonus(7), -1);
    assert_eq!(skill_bonus(Skill::Magic, &trained()), -4);
    assert_eq!(skill_bonus(Skill::Melee, &Skills { melee: Some(3), defense: None, magic: None }), 3);
    assert_eq!(player_hp_at_level(10, 2), 45);
    assert_eq!(player_hp_at_level(14, 1), 32);
    assert_eq!(mana_at_level(10, 2), 8);
    assert_eq!(mana_at_level(0, 3), 3);
}

#[test]
fn tenth_kill_levels_up() {
    let mut p = pools(30);
    p.hit_points.current = 5;
    for _ in 0..9 {
        gain_experience(&mut p, &attrs(), 100, 0);
    }
    assert_eq!(p.xp, 900);
    assert_eq!(p.level, 1);
    assert_eq!(p.hit_points.current, 5);
    gain_experience(&mut p, &attrs(), 100, 0);
    assert_eq!(p.xp, 1000);
    assert_eq!(p.level, 2);
    assert_eq!(p.hit_points, Pool { max: 45, current: 45 });
    assert_eq!(p.mana, Pool { max: 8, current: 8 });
}

#[test]
fn damage_is_summed_and_god_mode_ignores_it() {
    let mut p = pools(10);
    let r = apply_damage(&mut p, &vec![(4, false), (7, true)]);
    assert_eq!(p.hit_points.current, -1);
    assert!(r.dead && r.killed_by_player);
    let mut q = pools(10);
    let r = apply_damage(&mut q, &vec![(7, true), (4, false)]);
    assert!(r.dead && r.killed_by_player);
    let mut m = pools(10);
    let r = apply_damage(&mut m, &vec![(7, false), (4, false)]);
    assert!(r.dead && !r.killed_by_player);
    let r = apply_damage(&mut m, &vec![(3, true)]);
    assert_eq!(m.hit_points.current, -4);
    assert!(r.dead && !r.killed_by_player);
    let mut g = pools(10);
    g.god_mode = true;
    let r = apply_damage(&mut g, &vec![(40, true)]);
    assert_eq!(g.hit_points.current, 10);
    assert!(!r.dead);
}

#[test]
fn melee_needs_living_fighters() {
    let mut rng = rltk::RandomNumberGenerator::seeded(11);
    let attacker = Attacker { attributes: attrs(), skills: trained(), weapon: fist(), well_fed: false };
    let defender = Defender { attributes: attrs(), skills: trained(), base_armor_class: 10, armor_item_bonus: 0 };
    assert_eq!(melee_attack(&mut rng, &attacker, 0, &defender, 5), None);
    assert_eq!(melee_attack(&mut rng, &attacker, 5, &defender, 0), None);
    for _ in 0..50 {
        match melee_attack(&mut rng, &attacker, 5, &defender, 5) {
            Some(MeleeOutcome::Hit { damage }) => assert!((1..=4).contains(&damage)),
            Some(_) => {}
            None => panic!("both fighters live"),
        }
    }
}

#[test]
fn weapon_selection() {
    let mut rng = rltk::RandomNumberGenerator::seeded(2);
    let bite = NaturalAttack { dmg_n_dice: 1, dmg_die_type: 6, dmg_bonus: 1, hit_bonus: 2 };
    let claw = NaturalAttack { dmg_n_dice: 2, dmg_die_type: 4, dmg_bonus: 0, hit_bonus: 0 };
    assert_eq!(select_weapon(&mut rng, &vec![], None), fist());
    let w = select_weapon(&mut rng, &vec![bite], None);
    assert_eq!((w.dmg_die_type, w.hit_bonus, w.dmg_bonus), (6, 2, 1));
    let sword = MeleeWeapon { attribute: WeaponAttribute::Quickness, dmg_n_dice: 1, dmg_die_type: 8, dmg_bonus: 2, hit_bonus: 1 };
    assert_eq!(select_weapon(&mut rng, &vec![bite, claw], Some(sword)), sword);
    let mut seen = [false, false];
    for _ in 0..40 {
        let w = select_weapon(&mut rng, &vec![bite, claw], None);
        if w.dmg_die_type == 6 { seen[0] = true } else if w.dmg_die_type == 4 { seen[1] = true }
    }
    assert!(seen[0] && seen[1]);
}

#[test]
fn dead_are_deleted_and_dead_player_ends_game() {
    let mut state = RunState::Ticking;
    let cs = vec![
        Combatant { entity: ent(1), hit_points: 0, is_player: false },
        Combatant { entity: ent(2), hit_points: -1, is_player: true },
        Combatant { entity: ent(3), hit_points: 5, is_player: false },
        Combatant { entity: ent(4), hit_points: -3, is_player: false },
    ];
    assert_eq!(delete_the_dead(&cs, &mut state), vec![ent(1), ent(4)]);
    assert_eq!(state, RunState::GameOver);
    let mut state = RunState::Ticking;
    assert!(delete_the_dead(&cs[2..3].to_vec(), &mut state).is_empty());
    assert_eq!(state, RunState::Ticking);
}

#[test]
fn dead_drop_what_they_carry() {
    let mut items = vec![
        ItemState { item: ent(10), location: ItemLocation::InBackpack { owner: ent(1) } },
        ItemState { item: ent(11), location: ItemLocation::Equipped { owner: ent(1), slot: EquipmentSlot::Melee } },
        ItemState { item: ent(12), location: ItemLocation::InBackpack { owner: ent(2) } },
        ItemState { item: ent(13), location: ItemLocation::OnGround { x: 0, y: 0 } },
    ];
    drop_carried_items(&mut items, ent(1), 4, 5);
    assert_eq!(items[0].location, ItemLocation::OnGround { x: 4, y: 5 });
    assert_eq!(items[1].location, ItemLocation::OnGround { x: 4, y: 5 });
    assert_eq!(items[2].location, ItemLocation::InBackpack { owner: ent(2) });
    assert_eq!(items[3].location, ItemLocation::OnGround { x: 0, y: 0 });
}

#[test]
fn item_moves() {
    let mut items = vec![
        ItemState { item: ent(10), location: ItemLocation::OnGround { x: 1, y: 1 } },
        ItemState { item: ent(11), location: ItemLocation::Equipped { owner: ent(1), slot: EquipmentSlot::Melee } },
    ];
    pick_up_item(&mut items, ent(10), ent(1));
    assert_eq!(items[0].location, ItemLocation::InBackpack { owner: ent(1) });
    remove_equipment(&mut items, ent(11), ent(1));
    assert_eq!(items[1].location, ItemLocation::InBackpack { owner: ent(1) });
    drop_item(&mut items, ent(10), 3, 2);
    assert_eq!(items[0].location, ItemLocation::OnGround { x: 3, y: 2 });
}

#[test]
fn attack_beats_flee() {
    let rs = vec![(5, Reaction::Flee, ent(1)), (7, Reaction::Attack, ent(2)), (9, Reaction::Attack, ent(3))];
    match evaluate_reactions(&rs) {
        VisibleDecision::Approach { idx, target } => {
            assert_eq!(idx, 9);
            assert_eq!(target, ent(3));
        }
        _ => panic!("expected an approach"),
    }
    let rs = vec![(5, Reaction::Flee, ent(1)), (6, Reaction::Ignore, ent(2)), (8, Reaction::Flee, ent(3))];
    match evaluate_reactions(&rs) {
        VisibleDecision::Flee { indices } => assert_eq!(indices, vec![5, 8]),
        _ => panic!("expected to flee"),
    }
    assert!(matches!(evaluate_reactions(&vec![(1, Reaction::Ignore, ent(1))]), VisibleDecision::Nothing));
}

#[test]
fn approach_and_flee_steps() {
    assert_eq!(approach_step(true, &vec![4, 5, 6]), Some(5));
    assert_eq!(approach_step(true, &vec![4]), None);
    assert_eq!(approach_step(false, &vec![4, 5]), None);
    let mut index = SpatialIndex::new(4);
    index.index_entity(ent(1), 2, true);
    assert_eq!(flee_step(Some(2), &index), None);
    assert_eq!(flee_step(Some(3), &index), Some(3));
    assert_eq!(flee_step(None, &index), None);
}

#[test]
fn start_areas_cover_all_rolls() {
    let mut rng = rltk::RandomNumberGenerator::seeded(8);
    let mut xs = Vec::new();
    let mut ys = Vec::new();
    for _ in 0..60 {
        let (x, y) = random_start_position(&mut rng);
        xs.push(x);
        ys.push(y);
    }
    for x in [XStart::LEFT, XStart::CENTER, XStart::RIGHT] {
        assert!(xs.contains(&x));
    }
    for y in [YStart::TOP, YStart::CENTER, YStart::BOTTOM] {
        assert!(ys.contains(&y));
    }
}

#[test]
fn overburdened_carriers_slow_down() {
    let mut p = pools(10);
    let mut a = attrs();
    a.might.base = 2;
    let carried = vec![(20, 1), (11, 0)];
    assert!(apply_encumbrance(&mut p, &carried, Some(a)));
    assert_eq!(p.total_weight, 31);
    assert_eq!(p.total_initiative_penalty, 5);
    assert!(!apply_encumbrance(&mut p, &vec![(30, 1)], Some(a)));
    assert_eq!(p.total_initiative_penalty, 1);
    assert!(!apply_encumbrance(&mut p, &carried, None));
}

#[test]
fn equipping_replaces_the_slot() {
    let mut items = vec![
        ItemState { item: ent(10), location: ItemLocation::Equipped { owner: ent(1), slot: EquipmentSlot::Melee } },
        ItemState { item: ent(11), location: ItemLocation::InBackpack { owner: ent(1) } },
        ItemState { item: ent(12), location: ItemLocation::Equipped { owner: ent(1), slot: EquipmentSlot::Head } },
        ItemState { item: ent(13), location: ItemLocation::Equipped { owner: ent(2), slot: EquipmentSlot::Melee } },
    ];
    shadorogue::actions::equip_item(&mut items, ent(11), ent(1), EquipmentSlot::Melee);
    assert_eq!(items[0].location, ItemLocation::InBackpack { owner: ent(1) });
    assert_eq!(items[1].location, ItemLocation::Equipped { owner: ent(1), slot: EquipmentSlot::Melee });
    assert_eq!(items[2].location, ItemLocation::Equipped { owner: ent(1), slot: EquipmentSlot::Head });
    assert_eq!(items[3].location, ItemLocation::Equipped { owner: ent(2), slot: EquipmentSlot::Melee });
}

fn no_effects() -> shadorogue::actions::ItemEffects {
    shadorogue::actions::ItemEffects {
        heal: None,
        damage: None,
        confusion: None,
        food: false,
        magic_mapper: false,
        town_portal: false,
        consumable: true,
    }
}

fn target(index: u32, hp: Option<Pool>) -> shadorogue::actions::UseTarget {
    shadorogue::actions::UseTarget { entity: ent(index), hit_points: hp, hunger: None, confusion: None }
}

#[test]
fn potions_heal_up_to_the_maximum() {
    let fx = shadorogue::actions::ItemEffects { heal: Some(8), ..no_effects() };
    let mut ts = vec![target(1, Some(Pool { max: 10, current: 5 })), target(2, Some(Pool { max: 30, current: 5 }))];
    let mut state = RunState::Ticking;
    let mut dmg = Vec::new();
    assert!(shadorogue::actions::use_item(&fx, &mut ts, 3, &mut state, &mut dmg));
    assert_eq!(ts[0].hit_points, Some(Pool { max: 10, current: 10 }));
    assert_eq!(ts[1].hit_points, Some(Pool { max: 30, current: 13 }));
    assert!(dmg.is_empty());
    assert_eq!(state, RunState::Ticking);
}

#[test]
fn scrolls_damage_and_confuse_only_with_targets() {
    let mut state = RunState::Ticking;
    let mut dmg = Vec::new();
    let fireball = shadorogue::actions::ItemEffects { damage: Some(20), ..no_effects() };
    let mut none: Vec<shadorogue::actions::UseTarget> = Vec::new();
    assert!(!shadorogue::actions::use_item(&fireball, &mut none, 3, &mut state, &mut dmg));
    let mut ts = vec![target(4, None), target(5, None)];
    assert!(shadorogue::actions::use_item(&fireball, &mut ts, 3, &mut state, &mut dmg));
    assert_eq!(dmg.len(), 2);
    assert_eq!((dmg[1].victim, dmg[1].amount, dmg[1].from_player), (ent(5), 20, true));
    let confuse = shadorogue::actions::ItemEffects { confusion: Some(4), consumable: false, ..no_effects() };
    assert!(!shadorogue::actions::use_item(&confuse, &mut ts, 3, &mut state, &mut dmg));
    assert_eq!(ts[0].confusion, Some(4));
}

#[test]
fn mapping_portal_and_food() {
    let mut dmg = Vec::new();
    let mut state = RunState::Ticking;
    let mapper = shadorogue::actions::ItemEffects { magic_mapper: true, ..no_effects() };
    shadorogue::actions::use_item(&mapper, &mut vec![target(1, None)], 2, &mut state, &mut dmg);
    assert_eq!(state, RunState::MagicMapReveal { row: 0 });
    let portal = shadorogue::actions::ItemEffects { town_portal: true, ..no_effects() };
    let mut state = RunState::Ticking;
    shadorogue::actions::use_item(&portal, &mut vec![target(1, None)], 1, &mut state, &mut dmg);
    assert_eq!(state, RunState::Ticking);
    shadorogue::actions::use_item(&portal, &mut vec![target(1, None)], 4, &mut state, &mut dmg);
    assert_eq!(state, RunState::TownPortal);
    let ration = shadorogue::actions::ItemEffects { food: true, ..no_effects() };
    let hungry = shadorogue::actions::HungerClock { state: shadorogue::actions::HungerState::Hungry, duration: 0 };
    let mut ts = vec![
        shadorogue::actions::UseTarget { hunger: Some(hungry), ..target(1, None) },
        shadorogue::actions::UseTarget { hunger: Some(hungry), ..target(2, None) },
    ];
    assert!(shadorogue::actions::use_item(&ration, &mut ts, 4, &mut state, &mut dmg));
    assert_eq!(ts[0].hunger.unwrap().state, shadorogue::actions::HungerState::WellFed);
    assert_eq!(ts[0].hunger.unwrap().duration, 20);
    assert_eq!(ts[1].hunger, Some(hungry));
}

#[test]
fn picking_up_takes_the_last_item_here() {
    let items = vec![
        ItemState { item: ent(10), location: ItemLocation::OnGround { x: 2, y: 2 } },
        ItemState { item: ent(11), location: ItemLocation::OnGround { x: 3, y: 2 } },
        ItemState { item: ent(12), location: ItemLocation::OnGround { x: 2, y: 2 } },
    ];
    assert_eq!(shadorogue::actions::get_item(&items, 2, 2), Some(ent(12)));
    assert_eq!(shadorogue::actions::get_item(&items, 3, 2), Some(ent(11)));
    assert_eq!(shadorogue::actions::get_item(&items, 0, 0), None);
}

#[test]
fn hotkeys_pick_carried_consumables() {
    let carried = vec![
        shadorogue::actions::CarriedConsumable { item: ent(20), range: None },
        shadorogue::actions::CarriedConsumable { item: ent(21), range: Some(6) },
    ];
    assert_eq!(
        shadorogue::actions::use_consumable_hotkey(&carried, 0),
        shadorogue::actions::HotkeyAction::Use { item: ent(20) }
    );
    assert_eq!(
        shadorogue::actions::use_consumable_hotkey(&carried, 1),
        shadorogue::actions::HotkeyAction::Target { item: ent(21), range: 6 }
    );
    assert_eq!(
        shadorogue::actions::use_consumable_hotkey(&carried, 2),
        shadorogue::actions::HotkeyAction::Nothing
    );
}
