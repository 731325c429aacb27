use shadorogue::builder::{
    AreaStartingPosition, BuildError, BuilderChain, BuilderMap, CullUnreachable, DistantExit,
    Position, Rect, RoomBasedStairs, RoomBasedStartingPosition, SimpleMapBuilder, XStart, YStart,
    MetaMapBuilder,
};
use shadorogue::distance::distance_map;
use shadorogue::exit_placement::{cull_and_place_exit, farthest_tile};
use shadorogue::map::GameMap;
use shadorogue::tiles::{tile_cost, tile_opaque, tile_walkable, TileType};

fn floor_box(width: i32, height: i32, floors: &[(i32, i32)]) -> GameMap {
    let mut map = GameMap::new(1, width, height, "Test".to_string());
    for &(x, y) in floors {
        let idx = map.xy_idx(x, y);
        map.tiles[idx] = TileType::Floor;
    }
    map
}

fn square_interior(width: i32, height: i32) -> GameMap {
    let mut floors = Vec::new();
    for y in 1..height - 1 {
        for x in 1..width - 1 {
            floors.push((x, y));
        }
    }
    floor_box(width, height, &floors)
}

fn builder_map(map: GameMap, start: Option<Position>) -> BuilderMap {
    let width = map.width;
    let height = map.height;
    BuilderMap {
        spawn_list: Vec::new(),
        map,
        starting_position: start,
        rooms: None,
        corridors: None,
        width,
        height,
    }
}

#[test]
fn tile_properties() {
    assert!(tile_walkable(TileType::Floor));
    assert!(tile_walkable(TileType::Gravel));
    assert!(!tile_walkable(TileType::Wall));
    assert!(!tile_walkable(TileType::DeepWater));
    assert!(tile_opaque(TileType::Stalagmite));
    assert!(!tile_opaque(TileType::ShallowWater));
    assert_eq!(tile_cost(TileType::Road), 8);
    assert_eq!(tile_cost(TileType::Grass), 19);
    assert_eq!(tile_cost(TileType::ShallowWater), 12);
    assert_eq!(tile_cost(TileType::Floor), 10);
}

#[test]
fn new_map_is_solid_and_indexed_by_rows() {
    let map = GameMap::new(3, 80, 50, "Depths".to_string());
    assert_eq!(map.tiles.len(), 4000);
    assert!(map.tiles.iter().all(|t| *t == TileType::Wall));
    assert_eq!(map.depth, 3);
    assert_eq!(map.xy_idx(5, 2), 165);
    assert_eq!(map.dimensions(), (80, 50));
    assert!(map.outdoors);
    assert_eq!(map.name, "Depths");
}

#[test]
fn opacity_counts_index_zero_and_view_blockers() {
    let mut map = square_interior(5, 5);
    assert!(map.is_opaque(0));
    assert!(map.is_opaque(1));
    assert!(!map.is_opaque(6));
    map.view_blocked[6] = true;
    assert!(map.is_opaque(6));
    assert!(map.is_opaque(25));
}

#[test]
fn distances_cost_thousandths_per_step() {
    let map = square_interior(5, 5);
    let blocked = map.terrain_blocked();
    let d = distance_map(&map.tiles, &blocked, 5, 5, 12);
    assert_eq!(d[12], Some(0));
    assert_eq!(d[11], Some(1000));
    assert_eq!(d[13], Some(1000));
    assert_eq!(d[6], Some(1450));
    assert_eq!(d[18], Some(1450));
    assert_eq!(d[0], None);
}

#[test]
fn diagonal_may_not_cut_corners() {
    // floor at (1,1), (2,1) and (2,2); (1,2) is wall, so (1,1)->(2,2) must go round
    let map = floor_box(4, 4, &[(1, 1), (2, 1), (2, 2)]);
    let blocked = map.terrain_blocked();
    let d = distance_map(&map.tiles, &blocked, 4, 4, 5);
    assert_eq!(d[10], Some(2000));
}

#[test]
fn grass_costs_more_to_enter() {
    let mut map = square_interior(5, 5);
    map.tiles[13] = TileType::Grass;
    let blocked = map.terrain_blocked();
    let d = distance_map(&map.tiles, &blocked, 5, 5, 12);
    assert_eq!(d[13], Some(1900));
    assert_eq!(d[7], Some(1000));
}

#[test]
fn exit_goes_to_first_farthest_tile() {
    let mut map = square_interior(5, 5);
    let (d, exit) = cull_and_place_exit(&mut map, 12);
    assert_eq!(exit, 6);
    assert_eq!(d[6], Some(1450));
    assert_eq!(map.tiles[6], TileType::DownStairs);
    assert_eq!(map.tiles[18], TileType::Floor);
}

#[test]
fn unreachable_floor_becomes_wall() {
    let mut floors = Vec::new();
    for y in 1..=3 {
        for x in [1, 2, 4, 5] {
            floors.push((x, y));
        }
    }
    let mut map = floor_box(7, 5, &floors);
    let (d, exit) = cull_and_place_exit(&mut map, 8);
    assert_eq!(exit, 23);
    assert_eq!(d[23], Some(2450));
    assert_eq!(map.tiles[23], TileType::DownStairs);
    for y in 1..=3 {
        for x in [4, 5] {
            assert_eq!(map.tiles[(y * 7 + x) as usize], TileType::Wall);
        }
    }
    assert_eq!(map.tiles[9], TileType::Floor);
}

#[test]
fn lone_start_is_its_own_exit() {
    let tiles = vec![TileType::Wall, TileType::Floor, TileType::Wall];
    let dist = vec![None, Some(0), None];
    assert_eq!(farthest_tile(&tiles, &dist, 1), 1);
}

#[test]
fn distant_exit_needs_a_start() {
    let mut bm = builder_map(square_interior(5, 5), None);
    assert_eq!(DistantExit::new(), MetaMapBuilder::DistantExit(DistantExit {}));
    assert_eq!(DistantExit::new().build_map(&mut bm), Err(BuildError::NoStartingPosition));
    assert_eq!(CullUnreachable::new().build_map(&mut bm), Err(BuildError::NoStartingPosition));
    assert!(bm.map.tiles.iter().all(|t| *t != TileType::DownStairs));
}

#[test]
fn distant_exit_places_stairs() {
    let mut bm = builder_map(square_interior(5, 5), Some(Position { x: 2, y: 2 }));
    DistantExit {}.build(&mut bm);
    assert_eq!(bm.map.tiles[6], TileType::DownStairs);
    assert_eq!(bm.starting_position, Some(Position { x: 2, y: 2 }));
}

#[test]
fn cull_unreachable_keeps_start_region() {
    let mut map = floor_box(7, 5, &[(1, 1), (2, 1), (4, 1), (5, 1)]);
    map.tiles[0] = TileType::Wall;
    let mut bm = builder_map(map, Some(Position { x: 1, y: 1 }));
    CullUnreachable {}.build(&mut bm);
    assert_eq!(bm.map.tiles[8], TileType::Floor);
    assert_eq!(bm.map.tiles[9], TileType::Floor);
    assert_eq!(bm.map.tiles[11], TileType::Wall);
    assert_eq!(bm.map.tiles[12], TileType::Wall);
}

#[test]
fn room_stairs_need_rooms() {
    let mut bm = builder_map(square_interior(12, 12), None);
    assert_eq!(RoomBasedStairs::new().build_map(&mut bm), Err(BuildError::NoRooms));
    assert_eq!(RoomBasedStartingPosition::new().build_map(&mut bm), Err(BuildError::NoRooms));
    assert_eq!(RoomBasedStairs::new(), MetaMapBuilder::RoomBasedStairs(RoomBasedStairs {}));
    bm.rooms = Some(vec![Rect::new(1, 1, 3, 3), Rect::new(5, 5, 4, 2)]);
    RoomBasedStairs {}.build(&mut bm);
    // centre of the last room: ((5 + 9) / 2, (5 + 7) / 2) = (7, 6)
    assert_eq!(bm.map.tiles[6 * 12 + 7], TileType::DownStairs);
    RoomBasedStartingPosition {}.build(&mut bm);
    assert_eq!(bm.starting_position, Some(Position { x: 2, y: 2 }));
}

#[test]
fn rect_geometry() {
    let a = Rect::new(2, 3, 4, 5);
    assert_eq!((a.x1, a.y1, a.x2, a.y2), (2, 3, 6, 8));
    assert_eq!(a.center(), (4, 5));
    assert!(a.intersect(&Rect::new(6, 8, 2, 2)));
    assert!(!a.intersect(&Rect::new(7, 3, 2, 2)));
}

#[test]
fn area_start_picks_nearest_walkable_tile() {
    let mut bm = builder_map(square_interior(5, 5), None);
    let stage = AreaStartingPosition { x: XStart::CENTER, y: YStart::CENTER };
    assert_eq!(stage.build(&mut bm), Ok(()));
    assert_eq!(bm.starting_position, Some(Position { x: 2, y: 2 }));

    let mut bm = builder_map(floor_box(7, 7, &[(5, 5), (1, 5)]), None);
    let stage = AreaStartingPosition { x: XStart::LEFT, y: YStart::TOP };
    assert_eq!(stage.build(&mut bm), Ok(()));
    assert_eq!(bm.starting_position, Some(Position { x: 1, y: 5 }));
}

#[test]
fn area_start_ties_go_to_scan_order() {
    // seed (2, 2); (1, 2) and (3, 2) are equally near, (1, 2) comes first
    let mut bm = builder_map(floor_box(5, 5, &[(3, 2), (1, 2)]), None);
    let stage = AreaStartingPosition { x: XStart::CENTER, y: YStart::CENTER };
    assert_eq!(stage.build(&mut bm), Ok(()));
    assert_eq!(bm.starting_position, Some(Position { x: 1, y: 2 }));
}

#[test]
fn area_start_fails_without_floor() {
    let mut bm = builder_map(GameMap::new(1, 4, 4, "x".to_string()), None);
    let stage = AreaStartingPosition { x: XStart::RIGHT, y: YStart::BOTTOM };
    assert_eq!(stage.build(&mut bm), Err(BuildError::NoFloor));
    assert_eq!(bm.starting_position, None);
}

#[test]
fn chain_stops_at_first_failing_stage() {
    let mut rng = rltk::RandomNumberGenerator::seeded(1);
    let mut chain = BuilderChain::new(1, 40, 30, "Chain".to_string());
    chain.start_with(SimpleMapBuilder::new());
    // the exit stage needs a starting position, which nothing has chosen yet
    chain.with(DistantExit::new());
    chain.with(RoomBasedStartingPosition::new());
    assert_eq!(chain.build_map(&mut rng), Err(BuildError::NoStartingPosition));
    assert!(chain.build_data.rooms.is_some());
    assert_eq!(chain.build_data.starting_position, None);
    assert!(chain.build_data.map.tiles.iter().all(|t| *t != TileType::DownStairs));
}

#[test]
fn simple_map_refuses_tiny_levels() {
    let mut rng = rltk::RandomNumberGenerator::seeded(3);
    let mut bm = builder_map(GameMap::new(1, 10, 30, "x".to_string()), None);
    assert_eq!(SimpleMapBuilder {}.build(&mut rng, &mut bm), Err(BuildError::TooSmall));
}

fn build_level(seed: u64) -> BuilderChain {
    let mut rng = rltk::RandomNumberGenerator::seeded(seed);
    let mut chain = BuilderChain::new(1, 80, 50, "Seeded".to_string());
    chain.start_with(SimpleMapBuilder::new());
    chain.with(RoomBasedStartingPosition::new());
    chain.with(DistantExit::new());
    assert_eq!(chain.build_map(&mut rng), Ok(()));
    chain
}

#[test]
fn same_seed_same_level() {
    let a = build_level(42);
    let b = build_level(42);
    assert_eq!(a.build_data.map.tiles, b.build_data.map.tiles);
    assert_eq!(a.build_data.rooms, b.build_data.rooms);
    assert_eq!(a.build_data.starting_position, b.build_data.starting_position);
    assert_eq!(a.build_data.spawn_list, b.build_data.spawn_list);
}

#[test]
fn generated_level_is_connected() {
    let chain = build_level(9);
    let bm = &chain.build_data;
    let rooms = bm.rooms.as_ref().unwrap();
    assert!(!rooms.is_empty());
    for (i, a) in rooms.iter().enumerate() {
        for b in rooms.iter().skip(i + 1) {
            assert!(!a.intersect(b));
        }
    }
    let stairs = bm.map.tiles.iter().filter(|t| **t == TileType::DownStairs).count();
    assert_eq!(stairs, 1);
    // flood fill from the start over walkable tiles reaches every walkable tile
    let start = bm.starting_position.unwrap();
    let blocked = bm.map.terrain_blocked();
    let s = bm.map.xy_idx(start.x, start.y);
    let d = distance_map(&bm.map.tiles, &blocked, 80, 50, s);
    for (i, t) in bm.map.tiles.iter().enumerate() {
        if tile_walkable(*t) {
            assert!(d[i].is_some(), "tile {} cannot be reached", i);
        }
    }
}

#[test]
fn standard_rooms_level_has_stairs_in_last_room() {
    let mut rng = rltk::RandomNumberGenerator::seeded(21);
    let bm = shadorogue::builder::new_map_rooms_and_corridors(&mut rng, 2);
    assert_eq!((bm.width, bm.height, bm.map.depth), (80, 50, 2));
    let rooms = bm.rooms.as_ref().unwrap();
    let (cx, cy) = rooms[rooms.len() - 1].center();
    assert_eq!(bm.map.tiles[bm.map.xy_idx(cx, cy)], TileType::DownStairs);
    let first = rooms[0];
    assert_eq!(bm.map.tiles[bm.map.xy_idx(first.x1 + 1, first.y1 + 1)], TileType::Floor);
}

#[test]
fn map_drives_its_index() {
    let map = floor_box(3, 3, &[(1, 1)]);
    let mut index = shadorogue::spatial::SpatialIndex::new(9);
    index.index_entity(shadorogue::spatial::EntityId { index: 1, generation: 0 }, 4, true);
    map.populate_blocked(&mut index);
    assert!(index.is_blocked(0));
    assert!(index.is_blocked(4));
    map.clear_content_index(&mut index);
    assert!(!index.is_blocked(4));
    assert!(index.tile_content(4).is_empty());
}

#[test]
fn random_builders_make_playable_levels() {
    for seed in 0..12u64 {
        let mut rng = rltk::RandomNumberGenerator::seeded(seed);
        let mut chain = shadorogue::builder::random_builder(1, &mut rng, 80, 50);
        assert_eq!(chain.builders.len(), 2);
        assert_eq!(chain.build_map(&mut rng), Ok(()));
        let bm = &chain.build_data;
        assert!(bm.starting_position.is_some());
        let stairs = bm.map.tiles.iter().filter(|t| **t == TileType::DownStairs).count();
        assert_eq!(stairs, 1);
    }
}
