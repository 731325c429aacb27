use vstd::prelude::*;
use rltk::RandomNumberGenerator;
use crate::tiles::{TileType, walkable, tile_walkable};
use crate::map::GameMap;
use crate::exit_placement::cull_and_place_exit;
use crate::dice::{range, roll_dice};

verus! {

/// A tile position.
#[derive(PartialEq, Eq, Structural, Clone, Copy, Debug)]
pub struct Position {
    pub x: i32,
    pub y: i32,
}

/// A rectangle by its corners; a room's floor is the inside `x1 < x <= x2`, `y1 < y <= y2`.
#[derive(PartialEq, Eq, Structural, Clone, Copy, Debug)]
pub struct Rect {
    pub x1: i32,
    pub y1: i32,
    pub x2: i32,
    pub y2: i32,
}

impl Rect {
    pub open spec fn spec_center(&self) -> (int, int) {
        ((self.x1 + self.x2) / 2, (self.y1 + self.y2) / 2)
    }

    /// The rectangle lies within a `w` by `h` level and is at least one tile across.
    pub open spec fn inside(&self, w: int, h: int) -> bool {
        0 <= self.x1 < self.x2 < w && 0 <= self.y1 < self.y2 < h
    }

    pub open spec fn overlaps(&self, o: &Rect) -> bool {
        self.x1 <= o.x2 && self.x2 >= o.x1 && self.y1 <= o.y2 && self.y2 >= o.y1
    }

    /// The rectangle at (`x`, `y`) that is `w` wide and `h` high.
    pub fn new(x: i32, y: i32, w: i32, h: i32) -> (r: Rect)
        requires
            x + w <= i32::MAX,
            y + h <= i32::MAX,
            x + w >= i32::MIN,
            y + h >= i32::MIN,
        ensures
            r.x1 == x && r.y1 == y && r.x2 == x + w && r.y2 == y + h,
    {
        Rect { x1: x, y1: y, x2: x + w, y2: y + h }
    }

    /// Whether the two rectangles share a point (edges included).
    pub fn intersect(&self, other: &Rect) -> (r: bool)
        ensures
            r == self.overlaps(other),
    {
        self.x1 <= other.x2 && self.x2 >= other.x1 && self.y1 <= other.y2 && self.y2 >= other.y1
    }

    /// The middle point, rounded toward zero.
    pub fn center(&self) -> (r: (i32, i32))
        requires
            0 <= self.x1 + self.x2,
            0 <= self.y1 + self.y2,
        ensures
            (r.0 as int, r.1 as int) == self.spec_center(),
    {
        (((self.x1 as i64 + self.x2 as i64) / 2) as i32, ((self.y1 as i64 + self.y2 as i64) / 2) as i32)
    }
}

/// Why a level could not be built.
#[derive(PartialEq, Eq, Structural, Clone, Copy, Debug)]
pub enum BuildError {
    /// A stage needs a starting position and none was chosen.
    NoStartingPosition,
    /// A stage needs the list of rooms and none was made.
    NoRooms,
    /// No walkable tile exists to start on.
    NoFloor,
    /// The level is too small for the generator.
    TooSmall,
}

/// The state a chain of builders works on.
pub struct BuilderMap {
    pub spawn_list: Vec<(usize, String)>,
    pub map: GameMap,
    pub starting_position: Option<Position>,
    pub rooms: Option<Vec<Rect>>,
    pub corridors: Option<Vec<Vec<usize>>>,
    pub width: i32,
    pub height: i32,
}

impl BuilderMap {
    /// The level is well formed and at least one tile in each direction, and the starting
    /// position, where there is one, lies on it.
    pub open spec fn wf(&self) -> bool {
        &&& self.map.wf()
        &&& self.width == self.map.width
        &&& self.height == self.map.height
        &&& 0 < self.width
        &&& 0 < self.height
        &&& self.starting_position matches Some(p) ==> 0 <= p.x < self.width && 0 <= p.y
            < self.height
        &&& self.rooms matches Some(rs) ==> forall|k: int|
            0 <= k < rs.len() ==> #[trigger] rs[k].inside(self.width as int, self.height as int)
    }
}

/// Whether a start seed lies at the left, in the middle, or at the right of the level.
#[derive(PartialEq, Eq, Structural, Clone, Copy, Debug)]
pub enum XStart {
    LEFT,
    CENTER,
    RIGHT,
}

/// Whether a start seed lies at the top, in the middle, or at the bottom of the level.
#[derive(PartialEq, Eq, Structural, Clone, Copy, Debug)]
pub enum YStart {
    TOP,
    CENTER,
    BOTTOM,
}

/// Squared straight-line distance between two tiles.
pub open spec fn dist_sq(ax: int, ay: int, bx: int, by: int) -> int {
    (ax - bx) * (ax - bx) + (ay - by) * (ay - by)
}

/// Places the down stairs on the tile farthest from the starting position and walls off
/// every walkable tile that cannot be reached from it.
#[derive(PartialEq, Eq, Structural, Clone, Copy, Debug)]
pub struct DistantExit {}

/// Walls off every walkable tile that cannot be reached from the starting position.
#[derive(PartialEq, Eq, Structural, Clone, Copy, Debug)]
pub struct CullUnreachable {}

/// Places the down stairs at the centre of the last room.
#[derive(PartialEq, Eq, Structural, Clone, Copy, Debug)]
pub struct RoomBasedStairs {}

/// Starts the player at the centre of the first room.
#[derive(PartialEq, Eq, Structural, Clone, Copy, Debug)]
pub struct RoomBasedStartingPosition {}

/// Starts the player on the walkable tile nearest a seed point picked by area.
#[derive(PartialEq, Eq, Structural, Clone, Copy, Debug)]
pub struct AreaStartingPosition {
    pub x: XStart,
    pub y: YStart,
}

/// Carves random rectangular rooms and joins each to the previous one by a bent tunnel.
#[derive(PartialEq, Eq, Structural, Clone, Copy, Debug)]
pub struct SimpleMapBuilder {}

/// A stage that transforms a level that already has a shape.
#[derive(PartialEq, Eq, Structural, Clone, Copy, Debug)]
pub enum MetaMapBuilder {
    DistantExit(DistantExit),
    CullUnreachable(CullUnreachable),
    RoomBasedStairs(RoomBasedStairs),
    RoomBasedStartingPosition(RoomBasedStartingPosition),
    AreaStartingPosition(AreaStartingPosition),
}

/// A stage that gives a level its first shape.
#[derive(PartialEq, Eq, Structural, Clone, Copy, Debug)]
pub enum InitialMapBuilder {
    SimpleMap(SimpleMapBuilder),
}

/// Flat index of the starting position.
fn start_index(build_data: &BuilderMap) -> (r: Option<usize>)
    requires
        build_data.wf(),
    ensures
        r is Some <==> build_data.starting_position is Some,
        r matches Some(i) ==> i as int == build_data.starting_position->0.y * build_data.width
            + build_data.starting_position->0.x && i < build_data.map.tile_count(),
{
    match build_data.starting_position {
        None => None,
        Some(p) => Some(build_data.map.xy_idx(p.x, p.y)),
    }
}

/// `b` differs from `a` at most in the level's tiles.
pub open spec fn only_tiles_changed(a: BuilderMap, b: BuilderMap) -> bool {
    b == (BuilderMap { map: GameMap { tiles: b.map.tiles, ..a.map }, ..a })
}

/// Flat index of the starting position of `a`.
pub open spec fn start_of(a: BuilderMap) -> int {
    a.starting_position->0.y * a.width + a.starting_position->0.x
}

/// The build state has at least one room.
pub open spec fn has_rooms(a: BuilderMap) -> bool {
    (a.rooms matches Some(rs) && rs.len() > 0)
}

/// Flat index of the centre of the last room of `a`.
pub open spec fn last_room_center(a: BuilderMap) -> int {
    let c = a.rooms->0[a.rooms->0.len() - 1].spec_center();
    c.1 * a.width + c.0
}

/// What `DistantExit` does: only the tiles change, into the culled level with the stairs on
/// the farthest reachable tile, for the distances from the starting position.
pub open spec fn distant_exit_post(a: BuilderMap, b: BuilderMap) -> bool {
    &&& only_tiles_changed(a, b)
    &&& exists|d: Seq<Option<u64>>, e: int|
        crate::exit_placement::is_distance_map(
            a.width as int,
            a.height as int,
            a.map.tiles@,
            crate::exit_placement::terrain_mask(a.map.tiles@),
            start_of(a),
            d,
        ) && #[trigger] crate::exit_placement::is_farthest(a.map.tiles@, d, start_of(a), e)
            && b.map.tiles@ == crate::exit_placement::culled(a.map.tiles@, d, e)
}

/// What `CullUnreachable` does: only the tiles change; walkable tiles without a distance
/// from the starting position become wall.
pub open spec fn cull_post(a: BuilderMap, b: BuilderMap) -> bool {
    &&& only_tiles_changed(a, b)
    &&& exists|d: Seq<Option<u64>>|
        #[trigger] crate::exit_placement::is_distance_map(
            a.width as int,
            a.height as int,
            a.map.tiles@,
            crate::exit_placement::terrain_mask(a.map.tiles@),
            start_of(a),
            d,
        ) && b.map.tiles@ == Seq::new(
            a.map.tiles.len() as nat,
            |i: int|
                if walkable(a.map.tiles[i]) && d[i] is None {
                    TileType::Wall
                } else {
                    a.map.tiles[i]
                },
        )
}

/// What `RoomBasedStairs` does: only the tile at the last room's centre changes, into the
/// down stairs.
pub open spec fn room_stairs_post(a: BuilderMap, b: BuilderMap) -> bool {
    &&& only_tiles_changed(a, b)
    &&& b.map.tiles@ == a.map.tiles@.update(last_room_center(a), TileType::DownStairs)
}

/// What `RoomBasedStartingPosition` does: only the starting position changes, to the
/// centre of the first room.
pub open spec fn room_start_post(a: BuilderMap, b: BuilderMap) -> bool {
    let c = a.rooms->0[0].spec_center();
    b == (BuilderMap { starting_position: Some(Position { x: c.0 as i32, y: c.1 as i32 }), ..a })
}

impl DistantExit {
    pub fn new() -> (r: MetaMapBuilder)
        ensures
            r == MetaMapBuilder::DistantExit(DistantExit {}),
    {
        MetaMapBuilder::DistantExit(DistantExit {})
    }

    /// Culls unreachable walkable tiles and puts the stairs on the farthest reachable one,
    /// as `cull_and_place_exit` states. A starting position must have been chosen.
    pub fn build(&self, build_data: &mut BuilderMap)
        requires
            old(build_data).wf(),
            old(build_data).starting_position is Some,
        ensures
            final(build_data).wf(),
            distant_exit_post(*old(build_data), *final(build_data)),
    {
        let s = start_index(build_data).unwrap();
        let (d, e) = cull_and_place_exit(&mut build_data.map, s);
        proof {
            let a = *old(build_data);
            assert(crate::exit_placement::is_farthest(a.map.tiles@, d@, start_of(a), e as int));
            assert(*build_data == (BuilderMap { map: GameMap { tiles: build_data.map.tiles, ..a.map }, ..a }));
        }
    }
}

impl CullUnreachable {
    pub fn new() -> (r: MetaMapBuilder)
        ensures
            r == MetaMapBuilder::CullUnreachable(CullUnreachable {}),
    {
        MetaMapBuilder::CullUnreachable(CullUnreachable {})
    }

    /// Turns every walkable tile that cannot be reached from the starting position into
    /// wall. A starting position must have been chosen.
    pub fn build(&self, build_data: &mut BuilderMap)
        requires
            old(build_data).wf(),
            old(build_data).starting_position is Some,
        ensures
            final(build_data).wf(),
            cull_post(*old(build_data), *final(build_data)),
    {
        let s = start_index(build_data).unwrap();
        let ghost before = build_data.map.tiles@;
        let blocked = build_data.map.terrain_blocked();
        assert(blocked@ =~= crate::exit_placement::terrain_mask(build_data.map.tiles@));
        let w = build_data.map.width as usize;
        let h = build_data.map.height as usize;
        let d = crate::distance::distance_map(&build_data.map.tiles, &blocked, w, h, s);
        crate::exit_placement::cull_unreachable_tiles(&mut build_data.map.tiles, &d);
        proof {
            let ghost expect = Seq::new(
                before.len() as nat,
                |i: int|
                    if walkable(before[i]) && d@[i] is None {
                        TileType::Wall
                    } else {
                        before[i]
                    },
            );
            assert(build_data.map.tiles@ =~= expect);
            let a = *old(build_data);
            assert(crate::exit_placement::is_distance_map(
                a.width as int,
                a.height as int,
                before,
                crate::exit_placement::terrain_mask(before),
                start_of(a),
                d@,
            ));
            assert(*build_data == (BuilderMap { map: GameMap { tiles: build_data.map.tiles, ..a.map }, ..a }));
        }
    }
}

/// The last room of the list.
fn last_room(build_data: &BuilderMap) -> (r: Rect)
    requires
        build_data.wf(),
        has_rooms(*build_data),
    ensures
        r == build_data.rooms->0[build_data.rooms->0.len() - 1],
        r.inside(build_data.width as int, build_data.height as int),
{
    let rs = build_data.rooms.as_ref().unwrap();
    rs[rs.len() - 1]
}

/// The first room of the list.
fn first_room(build_data: &BuilderMap) -> (r: Rect)
    requires
        build_data.wf(),
        has_rooms(*build_data),
    ensures
        r == build_data.rooms->0[0],
        r.inside(build_data.width as int, build_data.height as int),
{
    let rs = build_data.rooms.as_ref().unwrap();
    rs[0]
}

impl RoomBasedStairs {
    pub fn new() -> (r: MetaMapBuilder)
        ensures
            r == MetaMapBuilder::RoomBasedStairs(RoomBasedStairs {}),
    {
        MetaMapBuilder::RoomBasedStairs(RoomBasedStairs {})
    }

    /// Puts the down stairs at the centre of the last room. Rooms must have been made.
    pub fn build(&self, build_data: &mut BuilderMap)
        requires
            old(build_data).wf(),
            has_rooms(*old(build_data)),
        ensures
            final(build_data).wf(),
            room_stairs_post(*old(build_data), *final(build_data)),
    {
        let room = last_room(build_data);
        let (cx, cy) = room.center();
        let idx = build_data.map.xy_idx(cx, cy);
        build_data.map.tiles.set(idx, TileType::DownStairs);
    }
}

impl RoomBasedStartingPosition {
    pub fn new() -> (r: MetaMapBuilder)
        ensures
            r == MetaMapBuilder::RoomBasedStartingPosition(RoomBasedStartingPosition {}),
    {
        MetaMapBuilder::RoomBasedStartingPosition(RoomBasedStartingPosition {})
    }

    /// Starts the player at the centre of the first room. Rooms must have been made.
    pub fn build(&self, build_data: &mut BuilderMap)
        requires
            old(build_data).wf(),
            has_rooms(*old(build_data)),
        ensures
            final(build_data).wf(),
            room_start_post(*old(build_data), *final(build_data)),
    {
        let room = first_room(build_data);
        let (cx, cy) = room.center();
        build_data.starting_position = Some(Position { x: cx, y: cy });
    }
}

/// Column of the seed point that an `XStart` picks on a level `w` wide.
pub open spec fn seed_x(x: XStart, w: int) -> int {
    match x {
        XStart::LEFT => 1,
        XStart::CENTER => w / 2,
        XStart::RIGHT => w - 2,
    }
}

/// Row of the seed point that a `YStart` picks on a level `h` high.
pub open spec fn seed_y(y: YStart, h: int) -> int {
    match y {
        YStart::TOP => 1,
        YStart::CENTER => h / 2,
        YStart::BOTTOM => h - 2,
    }
}

/// What `AreaStartingPosition` does: only the starting position changes, onto the walkable
/// tile nearest the seed point (first in scan order among equals); with no walkable tile it
/// fails and nothing changes.
pub open spec fn area_start_post(st: AreaStartingPosition, a: BuilderMap, b: BuilderMap, r: Result<(), BuildError>) -> bool {
    &&& b == (BuilderMap { starting_position: b.starting_position, ..a })
    &&& (r is Ok || r == Err::<(), BuildError>(BuildError::NoFloor))
    &&& (b.map == a.map)
    &&& (b.rooms == a.rooms)
    &&& (r == Err::<(), BuildError>(BuildError::NoFloor) <==> !exists|i: int|
        0 <= i < a.map.tiles.len() && walkable(#[trigger] a.map.tiles[i]))
    &&& (r is Err ==> b == a)
    &&& (r is Ok ==> (b.starting_position matches Some(p) && {
        let w = a.width as int;
        let sx = seed_x(st.x, w);
        let sy = seed_y(st.y, a.height as int);
        let tiles = a.map.tiles@;
        &&& walkable(tiles[p.y * w + p.x])
        &&& forall|x: int, y: int|
            0 <= x < w && 0 <= y < a.height && walkable(#[trigger] tiles[y * w + x])
                ==> dist_sq(p.x as int, p.y as int, sx, sy) <= dist_sq(x, y, sx, sy)
                && (y * w + x < p.y * w + p.x ==> dist_sq(p.x as int, p.y as int, sx, sy)
                < dist_sq(x, y, sx, sy))
    }))
}

impl AreaStartingPosition {
    pub fn new(x: XStart, y: YStart) -> (r: MetaMapBuilder)
        ensures
            r == MetaMapBuilder::AreaStartingPosition(AreaStartingPosition { x, y }),
    {
        MetaMapBuilder::AreaStartingPosition(AreaStartingPosition { x, y })
    }

    /// Starts the player on the walkable tile nearest (by straight-line distance) the seed
    /// point, the first in scan order among equally near ones; fails where no tile is
    /// walkable.
    pub fn build(&self, build_data: &mut BuilderMap) -> (r: Result<(), BuildError>)
        requires
            old(build_data).wf(),
        ensures
            final(build_data).wf(),
            area_start_post(*self, *old(build_data), *final(build_data), r),
    {
        let w = build_data.width;
        let h = build_data.height;
        let sx: i64 = match self.x {
            XStart::LEFT => 1,
            XStart::CENTER => (w / 2) as i64,
            XStart::RIGHT => w as i64 - 2,
        };
        let sy: i64 = match self.y {
            YStart::TOP => 1,
            YStart::CENTER => (h / 2) as i64,
            YStart::BOTTOM => h as i64 - 2,
        };
        let ghost tiles = build_data.map.tiles@;
        let mut best: Option<Position> = None;
        let mut best_d: i128 = 0;
        let mut y: i32 = 0;
        while y < h
            invariant
                build_data.wf(),
                tiles == build_data.map.tiles@,
                w == build_data.width,
                h == build_data.height,
                0 <= y <= h,
                sx == seed_x(self.x, w as int),
                sy == seed_y(self.y, h as int),
                best matches Some(p) ==> 0 <= p.x < w && 0 <= p.y < y && walkable(tiles[p.y * w + p.x])
                    && best_d == dist_sq(p.x as int, p.y as int, sx as int, sy as int),
                forall|xx: int, yy: int|
                    0 <= xx < w && 0 <= yy < y && walkable(#[trigger] tiles[yy * w + xx]) ==> (best
                        matches Some(p) && best_d <= dist_sq(xx, yy, sx as int, sy as int) && (yy
                        * w + xx < p.y * w + p.x ==> best_d < dist_sq(xx, yy, sx as int, sy as int))),
            decreases h - y,
        {
            let mut x: i32 = 0;
            while x < w
                invariant
                    build_data.wf(),
                    tiles == build_data.map.tiles@,
                    w == build_data.width,
                    h == build_data.height,
                    0 <= y < h,
                    0 <= x <= w,
                    sx == seed_x(self.x, w as int),
                    sy == seed_y(self.y, h as int),
                    best matches Some(p) ==> 0 <= p.x < w && 0 <= p.y <= y && (p.y < y || p.x < x)
                        && walkable(tiles[p.y * w + p.x]) && best_d == dist_sq(
                        p.x as int,
                        p.y as int,
                        sx as int,
                        sy as int,
                    ),
                    forall|xx: int, yy: int|
                        0 <= xx < w && 0 <= yy && (yy < y || (yy == y && xx < x)) && walkable(
                            #[trigger] tiles[yy * w + xx],
                        ) ==> (best matches Some(p) && best_d <= dist_sq(xx, yy, sx as int, sy as int)
                            && (yy * w + xx < p.y * w + p.x ==> best_d < dist_sq(
                            xx,
                            yy,
                            sx as int,
                            sy as int,
                        ))),
                decreases w - x,
            {
                let idx = build_data.map.xy_idx(x, y);
                if tile_walkable(build_data.map.tiles[idx]) {
                    let dx = x as i128 - sx as i128;
                    let dy = y as i128 - sy as i128;
                    proof {
                        assert(dx * dx <= 0x1_0000_0000_0000_0000i128) by (nonlinear_arith)
                            requires
                                -0x1_0000_0000i128 <= dx <= 0x1_0000_0000i128,
                        ;
                        assert(dy * dy <= 0x1_0000_0000_0000_0000i128) by (nonlinear_arith)
                            requires
                                -0x1_0000_0000i128 <= dy <= 0x1_0000_0000i128,
                        ;
                        assert(0 <= dx * dx) by (nonlinear_arith);
                        assert(0 <= dy * dy) by (nonlinear_arith);
                    }
                    let d = dx * dx + dy * dy;
                    let replace = match best {
                        None => true,
                        Some(_) => d < best_d,
                    };
                    proof {
                        assert forall|xx: int, yy: int|
                            0 <= xx < w && 0 <= yy && (yy < y || (yy == y && xx < x)) implies #[trigger] (yy
                            * w + xx) < y * w + x by {
                            if yy < y {
                                assert(yy * w + xx < y * w + x) by (nonlinear_arith)
                                    requires
                                        0 <= xx < w,
                                        yy < y,
                                        0 <= x,
                                ;
                            }
                        }
                    }
                    if replace {
                        best = Some(Position { x, y });
                        best_d = d;
                    }
                }
                x = x + 1;
            }
            y = y + 1;
        }
        match best {
            None => {
                proof {
                    assert forall|i: int|
                        0 <= i < tiles.len() implies !walkable(#[trigger] tiles[i]) by {
                        crate::map::lemma_index_coords(w as int, h as int, i);
                        let xx = i % (w as int);
                        let yy = i / (w as int);
                        assert(tiles[yy * w + xx] == tiles[i]);
                    }
                }
                assert(tiles == old(build_data).map.tiles@);
                assert(!exists|i: int|
                    0 <= i < old(build_data).map.tiles.len() && walkable(
                        #[trigger] old(build_data).map.tiles[i],
                    ));
                Err(BuildError::NoFloor)
            },
            Some(p) => {
                proof {
                    assert(0 <= p.y * w + p.x < w * h) by (nonlinear_arith)
                        requires
                            0 <= p.x < w,
                            0 <= p.y < h,
                    ;
                }
                build_data.starting_position = Some(p);
                Ok(())
            },
        }
    }
}

/// The floor of room `r` (its inside) is all `Floor` in a level `w` wide.
pub open spec fn room_carved(tiles: Seq<TileType>, w: int, r: Rect) -> bool {
    forall|x: int, y: int|
        r.x1 < x <= r.x2 && r.y1 < y <= r.y2 ==> #[trigger] tiles[y * w + x] == TileType::Floor
}

/// The floor of room `r` in a level `w` wide is all `Floor`, but for tile `c`.
pub open spec fn room_floored(tiles: Seq<TileType>, w: int, r: Rect, c: int) -> bool {
    forall|x: int, y: int|
        r.x1 < x <= r.x2 && r.y1 < y <= r.y2 ==> #[trigger] tiles[y * w + x] == TileType::Floor || y * w
            + x == c
}

/// Every tile of `after` is as in `before`, or has become `Floor`.
pub open spec fn only_floored(before: Seq<TileType>, after: Seq<TileType>) -> bool {
    &&& after.len() == before.len()
    &&& forall|i: int| 0 <= i < after.len() ==> #[trigger] after[i] == before[i] || after[i] == TileType::Floor
}

proof fn lemma_carved_kept(before: Seq<TileType>, after: Seq<TileType>, w: int, h: int, r: Rect)
    requires
        only_floored(before, after),
        before.len() == w * h,
        r.inside(w, h),
        room_carved(before, w, r),
    ensures
        room_carved(after, w, r),
{
    assert forall|x: int, y: int| r.x1 < x <= r.x2 && r.y1 < y <= r.y2 implies #[trigger] after[y * w + x]
        == TileType::Floor by {
        assert(0 <= y * w + x < w * h) by (nonlinear_arith)
            requires
                0 <= x < w,
                0 <= y < h,
        ;
        assert(before[y * w + x] == TileType::Floor);
    }
}

/// Carves the inside of `room` into floor.
fn apply_room_to_map(map: &mut GameMap, room: &Rect)
    requires
        old(map).wf(),
        room.inside(old(map).width as int, old(map).height as int),
    ensures
        final(map).wf(),
        final(map).width == old(map).width,
        final(map).height == old(map).height,
        final(map).depth == old(map).depth,
        *final(map) == (GameMap { tiles: final(map).tiles, ..*old(map) }),
        only_floored(old(map).tiles@, final(map).tiles@),
        room_carved(final(map).tiles@, final(map).width as int, *room),
{
    let ghost before = map.tiles@;
    let mut y = room.y1 + 1;
    while y <= room.y2
        invariant
            map.wf(),
            map.width == old(map).width,
            map.height == old(map).height,
            map.depth == old(map).depth,
            *map == (GameMap { tiles: map.tiles, ..*old(map) }),
            room.inside(map.width as int, map.height as int),
            room.y1 + 1 <= y <= room.y2 + 1,
            only_floored(before, map.tiles@),
            forall|xx: int, yy: int|
                room.x1 < xx <= room.x2 && room.y1 < yy < y ==> #[trigger] map.tiles[yy * map.width
                    + xx] == TileType::Floor,
        decreases room.y2 + 1 - y,
    {
        let mut x = room.x1 + 1;
        while x <= room.x2
            invariant
                map.wf(),
                map.width == old(map).width,
                map.height == old(map).height,
                map.depth == old(map).depth,
                *map == (GameMap { tiles: map.tiles, ..*old(map) }),
                room.inside(map.width as int, map.height as int),
                room.y1 + 1 <= y <= room.y2,
                room.x1 + 1 <= x <= room.x2 + 1,
                only_floored(before, map.tiles@),
                forall|xx: int, yy: int|
                    room.x1 < xx <= room.x2 && room.y1 < yy < y ==> #[trigger] map.tiles[yy
                        * map.width + xx] == TileType::Floor,
                forall|xx: int| room.x1 < xx < x ==> #[trigger] map.tiles[y * map.width + xx] == TileType::Floor,
            decreases room.x2 + 1 - x,
        {
            let idx = map.xy_idx(x, y);
            let ghost prev = map.tiles@;
            map.tiles.set(idx, TileType::Floor);
            proof {
                assert forall|xx: int, yy: int|
                    room.x1 < xx <= room.x2 && room.y1 < yy < y implies #[trigger] map.tiles[yy * map.width
                        + xx] == TileType::Floor by {
                    assert(0 <= yy * map.width + xx < map.width * map.height) by (nonlinear_arith)
                        requires
                            0 <= xx < map.width,
                            0 <= yy < map.height,
                    ;
                    assert(prev[yy * map.width + xx] == TileType::Floor);
                }
                assert forall|xx: int| room.x1 < xx < x + 1 implies #[trigger] map.tiles[y * map.width + xx]
                    == TileType::Floor by {
                    if xx < x {
                        assert(0 <= y * map.width + xx < map.width * map.height) by (nonlinear_arith)
                            requires
                                0 <= xx < map.width,
                                0 <= y < map.height,
                        ;
                        assert(prev[y * map.width + xx] == TileType::Floor);
                    }
                }
            }
            x = x + 1;
        }
        y = y + 1;
    }
}

/// Carves row `y` into floor from column `x1` to column `x2`, both included.
fn apply_horizontal_tunnel(map: &mut GameMap, x1: i32, x2: i32, y: i32)
    requires
        old(map).wf(),
        0 <= x1 < old(map).width,
        0 <= x2 < old(map).width,
        0 <= y < old(map).height,
    ensures
        final(map).wf(),
        final(map).width == old(map).width,
        final(map).height == old(map).height,
        final(map).depth == old(map).depth,
        *final(map) == (GameMap { tiles: final(map).tiles, ..*old(map) }),
        only_floored(old(map).tiles@, final(map).tiles@),
{
    let lo = if x1 < x2 { x1 } else { x2 };
    let hi = if x1 < x2 { x2 } else { x1 };
    let ghost before = map.tiles@;
    let mut x = lo;
    while x <= hi
        invariant
            map.wf(),
            map.width == old(map).width,
            map.height == old(map).height,
            map.depth == old(map).depth,
            *map == (GameMap { tiles: map.tiles, ..*old(map) }),
            0 <= lo <= x <= hi + 1,
            hi < map.width,
            0 <= y < map.height,
            only_floored(before, map.tiles@),
        decreases hi + 1 - x,
    {
        let idx = map.xy_idx(x, y);
        map.tiles.set(idx, TileType::Floor);
        x = x + 1;
    }
}

/// Carves column `x` into floor from row `y1` to row `y2`, both included.
fn apply_vertical_tunnel(map: &mut GameMap, y1: i32, y2: i32, x: i32)
    requires
        old(map).wf(),
        0 <= y1 < old(map).height,
        0 <= y2 < old(map).height,
        0 <= x < old(map).width,
    ensures
        final(map).wf(),
        final(map).width == old(map).width,
        final(map).height == old(map).height,
        final(map).depth == old(map).depth,
        *final(map) == (GameMap { tiles: final(map).tiles, ..*old(map) }),
        only_floored(old(map).tiles@, final(map).tiles@),
{
    let lo = if y1 < y2 { y1 } else { y2 };
    let hi = if y1 < y2 { y2 } else { y1 };
    let ghost before = map.tiles@;
    let mut y = lo;
    while y <= hi
        invariant
            map.wf(),
            map.width == old(map).width,
            map.height == old(map).height,
            map.depth == old(map).depth,
            *map == (GameMap { tiles: map.tiles, ..*old(map) }),
            0 <= lo <= y <= hi + 1,
            hi < map.height,
            0 <= x < map.width,
            only_floored(before, map.tiles@),
        decreases hi + 1 - y,
    {
        let idx = map.xy_idx(x, y);
        map.tiles.set(idx, TileType::Floor);
        y = y + 1;
    }
}

/// Attempts at placing a room.
pub const MAX_ROOMS: i32 = 30;
/// Smallest room side drawn.
pub const MIN_SIZE: i32 = 6;
/// One more than the largest room side drawn.
pub const MAX_SIZE: i32 = 10;

/// What `SimpleMapBuilder` does: a level under 11 tiles either way is refused and left
/// alone; otherwise only the tiles and the room list change, tiles only ever become floor,
/// and at least one room is made; rooms do not touch and their floors are carved.
pub open spec fn simple_map_post(a: BuilderMap, b: BuilderMap, r: Result<(), BuildError>) -> bool {
    &&& (r is Ok || r == Err::<(), BuildError>(BuildError::TooSmall))
    &&& (r == Err::<(), BuildError>(BuildError::TooSmall) <==> (a.width < 11 || a.height < 11))
    &&& (r is Err ==> b == a)
    &&& (r is Ok ==> {
        &&& b == (BuilderMap { map: GameMap { tiles: b.map.tiles, ..a.map }, rooms: b.rooms, ..a })
        &&& b.rooms is Some
        &&& b.rooms->0.len() >= 1
        &&& only_floored(a.map.tiles@, b.map.tiles@)
        &&& forall|k: int|
            0 <= k < b.rooms->0.len() ==> room_carved(b.map.tiles@, b.width as int, #[trigger] b.rooms->0[k])
        &&& forall|m: int, n: int|
            0 <= m < n < b.rooms->0.len() ==> !#[trigger] b.rooms->0[n].overlaps(&b.rooms->0[m])
    })
}

impl SimpleMapBuilder {
    pub fn new() -> (r: InitialMapBuilder)
        ensures
            r == InitialMapBuilder::SimpleMap(SimpleMapBuilder {}),
    {
        InitialMapBuilder::SimpleMap(SimpleMapBuilder {})
    }

    /// Tries `MAX_ROOMS` times to place a room of random size and position; a room that
    /// would touch an earlier one is dropped, any other is carved and joined to the previous
    /// room by a tunnel bent at a right angle. The rooms are recorded in placing order.
    /// Fails where the level is under 11 tiles in either direction.
    pub fn build(&self, rng: &mut RandomNumberGenerator, build_data: &mut BuilderMap) -> (r: Result<(), BuildError>)
        requires
            old(build_data).wf(),
        ensures
            final(build_data).wf(),
            simple_map_post(*old(build_data), *final(build_data), r),
    {
        let width = build_data.width;
        let height = build_data.height;
        if width < 11 || height < 11 {
            return Err(BuildError::TooSmall);
        }
        let ghost orig = build_data.map.tiles@;
        let mut rooms: Vec<Rect> = Vec::new();
        let mut attempt: i32 = 0;
        while attempt < MAX_ROOMS
            invariant
                build_data.map.wf(),
                build_data.width == width,
                build_data.height == height,
                build_data.map.width == width,
                build_data.map.height == height,
                build_data.starting_position == old(build_data).starting_position,
                build_data.map.depth == old(build_data).map.depth,
                *build_data == (BuilderMap {
                    map: GameMap { tiles: build_data.map.tiles, ..old(build_data).map },
                    ..*old(build_data)
                }),
                11 <= width,
                11 <= height,
                0 <= attempt <= MAX_ROOMS,
                attempt > 0 ==> rooms.len() >= 1,
                only_floored(orig, build_data.map.tiles@),
                forall|k: int| 0 <= k < rooms.len() ==> (#[trigger] rooms[k]).inside(width as int, height as int),
                forall|k: int|
                    0 <= k < rooms.len() ==> room_carved(build_data.map.tiles@, width as int, #[trigger] rooms[k]),
                forall|a: int, b: int|
                    0 <= a < b < rooms.len() ==> !#[trigger] rooms[b].overlaps(&rooms[a]),
            decreases MAX_ROOMS - attempt,
        {
            let w = range(rng, MIN_SIZE, MAX_SIZE);
            let h = range(rng, MIN_SIZE, MAX_SIZE);
            let x = roll_dice(rng, 1, width - w - 1) - 1;
            let y = roll_dice(rng, 1, height - h - 1) - 1;
            let new_room = Rect::new(x, y, w, h);
            let mut ok = true;
            let mut j: usize = 0;
            while j < rooms.len()
                invariant
                    j <= rooms.len(),
                    ok == forall|k: int| 0 <= k < j ==> !#[trigger] new_room.overlaps(&rooms[k]),
                decreases rooms.len() - j,
            {
                if new_room.intersect(&rooms[j]) {
                    ok = false;
                }
                j = j + 1;
            }
            if ok {
                let ghost t0 = build_data.map.tiles@;
                apply_room_to_map(&mut build_data.map, &new_room);
                proof {
                    assert forall|k: int| 0 <= k < rooms.len() implies room_carved(
                        build_data.map.tiles@,
                        width as int,
                        #[trigger] rooms[k],
                    ) by {
                        lemma_carved_kept(t0, build_data.map.tiles@, width as int, height as int, rooms[k]);
                    }
                }
                if rooms.len() > 0 {
                    let (new_x, new_y) = new_room.center();
                    let prev = rooms[rooms.len() - 1];
                    let (prev_x, prev_y) = prev.center();
                    let ghost t1 = build_data.map.tiles@;
                    if range(rng, 0, 2) == 1 {
                        apply_horizontal_tunnel(&mut build_data.map, prev_x, new_x, prev_y);
                        apply_vertical_tunnel(&mut build_data.map, prev_y, new_y, new_x);
                    } else {
                        apply_vertical_tunnel(&mut build_data.map, prev_y, new_y, prev_x);
                        apply_horizontal_tunnel(&mut build_data.map, prev_x, new_x, new_y);
                    }
                    proof {
                        assert(only_floored(t1, build_data.map.tiles@));
                        lemma_carved_kept(t1, build_data.map.tiles@, width as int, height as int, new_room);
                        assert forall|k: int| 0 <= k < rooms.len() implies room_carved(
                            build_data.map.tiles@,
                            width as int,
                            #[trigger] rooms[k],
                        ) by {
                            lemma_carved_kept(t1, build_data.map.tiles@, width as int, height as int, rooms[k]);
                        }
                    }
                }
                let ghost before_push = rooms@;
                rooms.push(new_room);
                proof {
                    assert forall|a: int, b: int|
                        0 <= a < b < rooms.len() implies !#[trigger] rooms[b].overlaps(&rooms[a]) by {
                        if b < before_push.len() {
                            assert(rooms[b] == before_push[b] && rooms[a] == before_push[a]);
                        } else {
                            assert(rooms[a] == before_push[a]);
                        }
                    }
                }
            }
            attempt = attempt + 1;
        }
        build_data.rooms = Some(rooms);
        Ok(())
    }
}

/// What running stage `m` on `a` gives: `b` and result `r`. A stage whose prerequisite is
/// missing (a starting position, or rooms) is not run: the state stays and the chain reports
/// the missing prerequisite.
pub open spec fn meta_post(m: MetaMapBuilder, a: BuilderMap, b: BuilderMap, r: Result<(), BuildError>) -> bool {
    match m {
        MetaMapBuilder::DistantExit(_) => if a.starting_position is None {
            r == Err::<(), BuildError>(BuildError::NoStartingPosition) && b == a
        } else {
            r is Ok && distant_exit_post(a, b)
        },
        MetaMapBuilder::CullUnreachable(_) => if a.starting_position is None {
            r == Err::<(), BuildError>(BuildError::NoStartingPosition) && b == a
        } else {
            r is Ok && cull_post(a, b)
        },
        MetaMapBuilder::RoomBasedStairs(_) => if !has_rooms(a) {
            r == Err::<(), BuildError>(BuildError::NoRooms) && b == a
        } else {
            r is Ok && room_stairs_post(a, b)
        },
        MetaMapBuilder::RoomBasedStartingPosition(_) => if !has_rooms(a) {
            r == Err::<(), BuildError>(BuildError::NoRooms) && b == a
        } else {
            r is Ok && room_start_post(a, b)
        },
        MetaMapBuilder::AreaStartingPosition(st) => area_start_post(st, a, b, r),
    }
}

/// What running generator `g` on `a` gives: `b` and result `r`.
pub open spec fn initial_post(g: InitialMapBuilder, a: BuilderMap, b: BuilderMap, r: Result<(), BuildError>) -> bool {
    match g {
        InitialMapBuilder::SimpleMap(_) => simple_map_post(a, b, r),
    }
}

/// `st` and `rs` record a run of the stages `bs` from `s` to `t` with result `r`: stage `j`
/// took state `st[j]` to `st[j + 1]` with result `rs[j]`; every stage before the last one
/// recorded succeeded; the run stops early only at a failure, whose error is the result.
pub open spec fn trace(
    bs: Seq<MetaMapBuilder>,
    st: Seq<BuilderMap>,
    rs: Seq<Result<(), BuildError>>,
    s: BuilderMap,
    t: BuilderMap,
    r: Result<(), BuildError>,
) -> bool {
    &&& rs.len() <= bs.len()
    &&& st.len() == rs.len() + 1
    &&& st[0] == s
    &&& st[rs.len() as int] == t
    &&& forall|j: int| 0 <= j < st.len() ==> (#[trigger] st[j]).wf()
    &&& forall|j: int| 0 <= j < rs.len() ==> meta_post(bs[j], st[j], st[j + 1], #[trigger] rs[j])
    &&& forall|j: int| 0 <= j < rs.len() - 1 ==> (#[trigger] rs[j]) is Ok
    &&& rs.len() < bs.len() ==> rs.len() > 0 && rs[rs.len() - 1] is Err
    &&& r == (if rs.len() > 0 && rs[rs.len() - 1] is Err {
        rs[rs.len() - 1]
    } else {
        Ok(())
    })
}

/// Running the stages `bs` in order from `s` ends in `t` with result `r`: either every stage
/// ran and succeeded, or the stages ran until the first that failed, whose state and error
/// are final.
pub open spec fn runs(bs: Seq<MetaMapBuilder>, s: BuilderMap, t: BuilderMap, r: Result<(), BuildError>) -> bool {
    exists|st: Seq<BuilderMap>, rs: Seq<Result<(), BuildError>>| #[trigger] trace(bs, st, rs, s, t, r)
}

/// The generator `g` ran on `a`, then the stages `bs` in order, ending in `b` with result
/// `r`; a failing generator stops the chain with its error.
pub open spec fn chain_post(
    g: InitialMapBuilder,
    bs: Seq<MetaMapBuilder>,
    a: BuilderMap,
    b: BuilderMap,
    r: Result<(), BuildError>,
) -> bool {
    (r is Err && initial_post(g, a, b, r)) || exists|m: BuilderMap|
        #[trigger] initial_post(g, a, m, Ok(())) && runs(bs, m, b, r)
}

impl MetaMapBuilder {
    /// Runs this stage on the level being built, where its prerequisite holds.
    pub fn build_map(&self, build_data: &mut BuilderMap) -> (r: Result<(), BuildError>)
        requires
            old(build_data).wf(),
        ensures
            final(build_data).wf(),
            meta_post(*self, *old(build_data), *final(build_data), r),
    {
        match self {
            MetaMapBuilder::DistantExit(b) => {
                if build_data.starting_position.is_none() {
                    return Err(BuildError::NoStartingPosition);
                }
                b.build(build_data);
                Ok(())
            },
            MetaMapBuilder::CullUnreachable(b) => {
                if build_data.starting_position.is_none() {
                    return Err(BuildError::NoStartingPosition);
                }
                b.build(build_data);
                Ok(())
            },
            MetaMapBuilder::RoomBasedStairs(b) => {
                if !rooms_present(build_data) {
                    return Err(BuildError::NoRooms);
                }
                b.build(build_data);
                Ok(())
            },
            MetaMapBuilder::RoomBasedStartingPosition(b) => {
                if !rooms_present(build_data) {
                    return Err(BuildError::NoRooms);
                }
                b.build(build_data);
                Ok(())
            },
            MetaMapBuilder::AreaStartingPosition(b) => b.build(build_data),
        }
    }
}

/// Whether the build state has at least one room.
fn rooms_present(build_data: &BuilderMap) -> (r: bool)
    ensures
        r == has_rooms(*build_data),
{
    match &build_data.rooms {
        None => false,
        Some(rs) => rs.len() > 0,
    }
}

impl InitialMapBuilder {
    /// Runs this generator on the level being built.
    pub fn build_map(&self, rng: &mut RandomNumberGenerator, build_data: &mut BuilderMap) -> (r: Result<(), BuildError>)
        requires
            old(build_data).wf(),
        ensures
            final(build_data).wf(),
            initial_post(*self, *old(build_data), *final(build_data), r),
    {
        match self {
            InitialMapBuilder::SimpleMap(b) => b.build(rng, build_data),
        }
    }
}

/// A level generator: one initial generator, then transforming stages in order.
pub struct BuilderChain {
    pub starter: Option<InitialMapBuilder>,
    pub builders: Vec<MetaMapBuilder>,
    pub build_data: BuilderMap,
}

impl BuilderChain {
    /// An empty chain over a solid level of the given depth, size and name.
    pub fn new(new_depth: i32, width: i32, height: i32, name: String) -> (r: BuilderChain)
        requires
            0 < width,
            0 < height,
            width * height <= u32::MAX,
        ensures
            r.build_data.wf(),
            r.starter is None,
            r.builders.len() == 0,
            r.build_data.width == width,
            r.build_data.height == height,
            r.build_data.map.depth == new_depth,
            r.build_data.spawn_list.len() == 0,
            r.build_data.starting_position is None,
            r.build_data.rooms is None,
            r.build_data.corridors is None,
            forall|i: int| 0 <= i < r.build_data.map.tiles.len() ==> r.build_data.map.tiles[i] == TileType::Wall,
    {
        BuilderChain {
            starter: None,
            builders: Vec::new(),
            build_data: BuilderMap {
                spawn_list: Vec::new(),
                map: GameMap::new(new_depth, width, height, name),
                starting_position: None,
                rooms: None,
                corridors: None,
                width,
                height,
            },
        }
    }

    /// Sets the initial generator; a chain takes only one, and giving it a second is a
    /// configuration error.
    pub fn start_with(&mut self, starter: InitialMapBuilder)
        requires
            old(self).starter is None,
        ensures
            final(self).starter == Some(starter),
            final(self).builders == old(self).builders,
            final(self).build_data == old(self).build_data,
    {
        self.starter = Some(starter);
    }

    /// Appends a transforming stage.
    pub fn with(&mut self, metabuilder: MetaMapBuilder)
        ensures
            final(self).builders@ == old(self).builders@.push(metabuilder),
            final(self).starter == old(self).starter,
            final(self).build_data == old(self).build_data,
    {
        self.builders.push(metabuilder);
    }

    /// Runs the initial generator and then every stage in order, all drawing from `rng`,
    /// and stops at the first that fails, with its error. Running a chain without an
    /// initial generator is a configuration error.
    pub fn build_map(&mut self, rng: &mut RandomNumberGenerator) -> (r: Result<(), BuildError>)
        requires
            old(self).build_data.wf(),
            old(self).starter is Some,
        ensures
            final(self).build_data.wf(),
            chain_post(
                old(self).starter->0,
                old(self).builders@,
                old(self).build_data,
                final(self).build_data,
                r,
            ),
            final(self).starter == old(self).starter,
            final(self).builders == old(self).builders,
    {
        let starter = self.starter.unwrap();
        match starter.build_map(rng, &mut self.build_data) {
            Err(e) => {
                return Err(e);
            },
            Ok(()) => {},
        }
        let ghost first = self.build_data;
        let ghost mut st: Seq<BuilderMap> = seq![first];
        let ghost mut rs: Seq<Result<(), BuildError>> = Seq::empty();
        let mut i: usize = 0;
        while i < self.builders.len()
            invariant
                self.build_data.wf(),
                self.starter == old(self).starter,
                self.builders == old(self).builders,
                old(self).starter is Some,
                i <= self.builders.len(),
                initial_post(old(self).starter->0, old(self).build_data, first, Ok(())),
                rs.len() == i,
                st.len() == i + 1,
                st[0] == first,
                st[i as int] == self.build_data,
                forall|j: int| 0 <= j < st.len() ==> (#[trigger] st[j]).wf(),
                forall|j: int| 0 <= j < rs.len() ==> meta_post(self.builders@[j], st[j], st[j + 1], #[trigger] rs[j]),
                forall|j: int| 0 <= j < rs.len() ==> (#[trigger] rs[j]) is Ok,
            decreases self.builders.len() - i,
        {
            let stage = self.builders[i];
            let r = stage.build_map(&mut self.build_data);
            proof {
                let ghost st0 = st;
                let ghost rs0 = rs;
                st = st.push(self.build_data);
                rs = rs.push(r);
                assert forall|j: int| 0 <= j < st.len() implies (#[trigger] st[j]).wf() by {
                    if j < i + 1 {
                        assert(st[j] == st0[j]);
                    }
                }
                assert forall|j: int| 0 <= j < rs.len() implies meta_post(self.builders@[j], st[j], st[j + 1], #[trigger] rs[j]) by {
                    if j < i {
                        assert(rs[j] == rs0[j] && st[j] == st0[j] && st[j + 1] == st0[j + 1]);
                    }
                }
            }
            match r {
                Err(e) => {
                    proof {
                        assert(trace(self.builders@, st, rs, first, self.build_data, r));
                        let fb = self.build_data;
                        assert(initial_post(old(self).starter->0, old(self).build_data, first, Ok(())) && runs(self.builders@, first, fb, r));
                    }
                    return Err(e);
                },
                Ok(()) => {},
            }
            i = i + 1;
        }
        proof {
            assert(trace(self.builders@, st, rs, first, self.build_data, Ok(())));
            let fb = self.build_data;
            assert(initial_post(old(self).starter->0, old(self).build_data, first, Ok(())) && runs(self.builders@, first, fb, Ok(())));
        }
        Ok(())
    }
}

/// Width of a standard level.
pub const MAP_WIDTH: i32 = 80;
/// Height of a standard level.
pub const MAP_HEIGHT: i32 = 50;

/// A standard 80 by 50 level at depth `new_depth`, carved into random rooms joined by
/// tunnels, with the down stairs at the centre of the last room: the only stairs of the
/// level. Every other tile is wall or floor, and the rooms' floors are carved.
pub fn new_map_rooms_and_corridors(rng: &mut RandomNumberGenerator, new_depth: i32) -> (r: BuilderMap)
    ensures
        r.wf(),
        r.width == MAP_WIDTH,
        r.height == MAP_HEIGHT,
        r.map.depth == new_depth,
        r.rooms is Some && r.rooms->0.len() >= 1,
        forall|a: int, b: int|
            0 <= a < b < r.rooms->0.len() ==> !#[trigger] r.rooms->0[b].overlaps(&r.rooms->0[a]),
        forall|i: int|
            0 <= i < r.map.tiles.len() ==> (#[trigger] r.map.tiles[i] == TileType::DownStairs
                <==> i == last_room_center(r)),
        forall|i: int|
            0 <= i < r.map.tiles.len() && i != last_room_center(r) ==> (#[trigger] r.map.tiles[i]
                == TileType::Wall || r.map.tiles[i] == TileType::Floor),
        forall|k: int|
            0 <= k < r.rooms->0.len() ==> room_floored(
                r.map.tiles@,
                MAP_WIDTH as int,
                #[trigger] r.rooms->0[k],
                last_room_center(r),
            ),
{
    let chain = BuilderChain::new(new_depth, MAP_WIDTH, MAP_HEIGHT, String::new());
    let mut build_data = chain.build_data;
    let ghost walls = build_data;
    let made = SimpleMapBuilder {}.build(rng, &mut build_data);
    let ghost carved = build_data;
    RoomBasedStairs {}.build(&mut build_data);
    proof {
        assert(made is Ok);
        let rs = carved.rooms->0;
        let c = rs[rs.len() - 1].spec_center();
        assert(rs[rs.len() - 1].inside(MAP_WIDTH as int, MAP_HEIGHT as int));
        assert(0 <= c.1 * MAP_WIDTH + c.0 < MAP_WIDTH * MAP_HEIGHT) by (nonlinear_arith)
            requires
                0 <= c.0 < MAP_WIDTH,
                0 <= c.1 < MAP_HEIGHT,
        ;
        assert(last_room_center(build_data) == last_room_center(carved));
        assert forall|i: int| 0 <= i < carved.map.tiles.len() implies #[trigger] carved.map.tiles[i]
            == TileType::Wall || carved.map.tiles[i] == TileType::Floor by {
            assert(walls.map.tiles[i] == TileType::Wall);
        }
        assert forall|k: int| 0 <= k < rs.len() implies room_floored(
            build_data.map.tiles@,
            MAP_WIDTH as int,
            #[trigger] rs[k],
            last_room_center(build_data),
        ) by {
            assert(room_carved(carved.map.tiles@, MAP_WIDTH as int, rs[k]));
            assert forall|x: int, y: int| rs[k].x1 < x <= rs[k].x2 && rs[k].y1 < y <= rs[k].y2 implies
                #[trigger] build_data.map.tiles@[y * MAP_WIDTH + x] == TileType::Floor || y * MAP_WIDTH + x
                == last_room_center(build_data) by {
                assert(rs[k].inside(MAP_WIDTH as int, MAP_HEIGHT as int));
                assert(0 <= y * MAP_WIDTH + x < MAP_WIDTH * MAP_HEIGHT) by (nonlinear_arith)
                    requires
                        0 <= x < MAP_WIDTH,
                        0 <= y < MAP_HEIGHT,
                ;
                assert(carved.map.tiles@[y * MAP_WIDTH + x] == TileType::Floor);
            }
        }
    }
    build_data
}

/// A chain that ends with the distant-exit stage and runs to success builds a connected
/// level: every walkable tile of the finished level is reached from its starting position
/// by a walk over the finished level.
pub proof fn lemma_chain_level_connected(
    g: InitialMapBuilder,
    bs: Seq<MetaMapBuilder>,
    a: BuilderMap,
    b: BuilderMap,
    i: int,
)
    requires
        chain_post(g, bs, a, b, Ok(())),
        bs.len() > 0,
        bs.last() is DistantExit,
        0 <= i < b.map.tiles.len(),
        walkable(b.map.tiles[i]),
    ensures
        b.starting_position is Some,
        exists|c: int|
            crate::distance::reaches(
                b.width as int,
                b.height as int,
                b.map.tiles@,
                crate::exit_placement::terrain_mask(b.map.tiles@),
                start_of(b),
                i,
                c,
            ),
{
    let m = choose|m: BuilderMap| #[trigger] initial_post(g, a, m, Ok(())) && runs(bs, m, b, Ok(()));
    let (st, rs) = choose|st: Seq<BuilderMap>, rs: Seq<Result<(), BuildError>>| #[trigger] trace(bs, st, rs, m, b, Ok(()));
    let n = bs.len() - 1;
    assert(rs.len() == bs.len());
    assert(meta_post(bs[n], st[n], st[n + 1], rs[n]));
    let p = st[n];
    assert(st[n].wf());
    assert(p.starting_position is Some);
    assert(distant_exit_post(p, b));
    let (d, e) = choose|d: Seq<Option<u64>>, e: int|
        crate::exit_placement::is_distance_map(
            p.width as int,
            p.height as int,
            p.map.tiles@,
            crate::exit_placement::terrain_mask(p.map.tiles@),
            start_of(p),
            d,
        ) && #[trigger] crate::exit_placement::is_farthest(p.map.tiles@, d, start_of(p), e)
            && b.map.tiles@ == crate::exit_placement::culled(p.map.tiles@, d, e);
    assert(0 <= start_of(p) < p.width * p.height) by (nonlinear_arith)
        requires
            0 <= p.starting_position->0.x < p.width,
            0 <= p.starting_position->0.y < p.height,
            start_of(p) == p.starting_position->0.y * p.width + p.starting_position->0.x,
    ;
    crate::exit_placement::lemma_level_connected_after_cull(
        p.width as int,
        p.height as int,
        p.map.tiles@,
        start_of(p),
        d,
        e,
        i,
    );
    assert(b.width == p.width && b.height == p.height && b.starting_position == p.starting_position);
    assert(start_of(b) == start_of(p));
    let c = choose|c: int|
        crate::distance::reaches(
            p.width as int,
            p.height as int,
            crate::exit_placement::culled(p.map.tiles@, d, e),
            crate::exit_placement::terrain_mask(crate::exit_placement::culled(p.map.tiles@, d, e)),
            start_of(p),
            i,
            c,
        );
    assert(crate::distance::reaches(
        b.width as int,
        b.height as int,
        b.map.tiles@,
        crate::exit_placement::terrain_mask(b.map.tiles@),
        start_of(b),
        i,
        c,
    ));
}

/// A stage that picks the starting position.
pub open spec fn is_start_stage(m: MetaMapBuilder) -> bool {
    m is RoomBasedStartingPosition || m is AreaStartingPosition
}

/// A stage that places the exit.
pub open spec fn is_exit_stage(m: MetaMapBuilder) -> bool {
    m is RoomBasedStairs || m is DistantExit
}

/// Assembles a room-based level generator on a chain that has none yet: the rooms-and-
/// corridors generator, then a starting position chosen by a two-sided die (the first
/// room's centre, or an area picked at random), then an exit chosen the same way (the last
/// room's centre, or the farthest reachable tile). Of the original selection, only the stages
/// this crate provides are offered.
pub fn random_room_builder(rng: &mut RandomNumberGenerator, builder: &mut BuilderChain)
    requires
        old(builder).starter is None,
    ensures
        final(builder).starter == Some(InitialMapBuilder::SimpleMap(SimpleMapBuilder {})),
        final(builder).build_data == old(builder).build_data,
        final(builder).builders.len() == old(builder).builders.len() + 2,
        final(builder).builders@.take(old(builder).builders.len() as int) == old(builder).builders@,
        is_start_stage(final(builder).builders@[old(builder).builders.len() as int]),
        is_exit_stage(final(builder).builders@[old(builder).builders.len() + 1]),
{
    builder.start_with(SimpleMapBuilder::new());
    let ghost before = builder.builders@;
    let start_roll = roll_dice(rng, 1, 2);
    if start_roll == 1 {
        builder.with(RoomBasedStartingPosition::new());
    } else {
        let (x, y) = crate::actions::random_start_position(rng);
        builder.with(AreaStartingPosition::new(x, y));
    }
    let exit_roll = roll_dice(rng, 1, 2);
    if exit_roll == 1 {
        builder.with(RoomBasedStairs::new());
    } else {
        builder.with(DistantExit::new());
    }
    assert(builder.builders@.take(before.len() as int) =~= before);
}

/// A random level generator for depth `new_depth` on a `width` by `height` level, built by
/// `random_room_builder`.
pub fn random_builder(new_depth: i32, rng: &mut RandomNumberGenerator, width: i32, height: i32) -> (r: BuilderChain)
    requires
        0 < width,
        0 < height,
        width * height <= u32::MAX,
    ensures
        r.build_data.wf(),
        r.build_data.width == width,
        r.build_data.height == height,
        r.build_data.map.depth == new_depth,
        r.starter == Some(InitialMapBuilder::SimpleMap(SimpleMapBuilder {})),
        r.builders.len() == 2,
        is_start_stage(r.builders@[0]),
        is_exit_stage(r.builders@[1]),
{
    let mut builder = BuilderChain::new(new_depth, width, height, String::new());
    random_room_builder(rng, &mut builder);
    builder
}

} // verus!
