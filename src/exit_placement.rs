use vstd::prelude::*;
use crate::tiles::{TileType, walkable, tile_walkable};
use crate::distance::{closed, coord, enterable, distance_map, idx_of, lemma_coord_of_idx, lemma_distance_is_least, lemma_idx_bound, link, path_cost, reaches, walk};
use crate::map::GameMap;

verus! {

/// One flag per tile: the terrain cannot be walked on.
pub open spec fn terrain_mask(tiles: Seq<TileType>) -> Seq<bool> {
    Seq::new(tiles.len(), |i: int| !walkable(tiles[i]))
}

/// `d` is what `distance_map` gives for start tile `s` on this terrain: every distance is
/// the cost of a walk from `s`, and no allowed step improves on one.
pub open spec fn is_distance_map(
    w: int,
    h: int,
    tiles: Seq<TileType>,
    blocked: Seq<bool>,
    s: int,
    d: Seq<Option<u64>>,
) -> bool {
    &&& d.len() == w * h
    &&& d[s] == Some(0u64)
    &&& forall|i: int|
        0 <= i < d.len() && #[trigger] d[i] is Some ==> reaches(w, h, tiles, blocked, s, i, d[i]->0 as int)
    &&& forall|i: int| 0 <= i < d.len() && d[i] is Some ==> #[trigger] closed(w, h, tiles, blocked, d, i)
}

/// Walkable tile `i` has a distance.
pub open spec fn reachable_floor(tiles: Seq<TileType>, d: Seq<Option<u64>>, i: int) -> bool {
    walkable(tiles[i]) && d[i] is Some
}

/// Tile `e` is the exit chosen from distances `d` with start `s`: no walkable tile with a
/// distance lies farther, and where `e` is not the start, it is walkable and every
/// walkable tile before it in scan order lies strictly nearer.
pub open spec fn is_farthest(tiles: Seq<TileType>, d: Seq<Option<u64>>, s: int, e: int) -> bool {
    &&& 0 <= e < d.len()
    &&& d[e] is Some
    &&& forall|i: int| 0 <= i < d.len() && #[trigger] reachable_floor(tiles, d, i) ==> d[i]->0 <= d[e]->0
    &&& e != s ==> walkable(tiles[e])
    &&& e != s ==> forall|i: int|
        0 <= i < e && #[trigger] reachable_floor(tiles, d, i) ==> d[i]->0 < d[e]->0
    &&& e == s ==> forall|i: int| 0 <= i < d.len() && #[trigger] reachable_floor(tiles, d, i) ==> d[i]->0 <= d[s]->0
}

/// Turns every walkable tile that has no distance into wall; other tiles stay.
pub fn cull_unreachable_tiles(tiles: &mut Vec<TileType>, dist: &Vec<Option<u64>>)
    requires
        old(tiles).len() == dist.len(),
    ensures
        final(tiles).len() == old(tiles).len(),
        forall|i: int|
            0 <= i < final(tiles).len() ==> #[trigger] final(tiles)[i] == (if walkable(old(tiles)[i])
                && dist[i] is None {
                TileType::Wall
            } else {
                old(tiles)[i]
            }),
{
    let n = tiles.len();
    let ghost before = tiles@;
    let mut i: usize = 0;
    while i < n
        invariant
            i <= n,
            n == dist.len(),
            tiles.len() == n,
            before.len() == n,
            forall|k: int|
                0 <= k < i ==> #[trigger] tiles[k] == (if walkable(before[k]) && dist[k] is None {
                    TileType::Wall
                } else {
                    before[k]
                }),
            forall|k: int| i <= k < n ==> #[trigger] tiles[k] == before[k],
        decreases n - i,
    {
        if tile_walkable(tiles[i]) && dist[i].is_none() {
            tiles.set(i, TileType::Wall);
        }
        i = i + 1;
    }
}

/// The walkable tile with the greatest distance, the first in scan order among equals;
/// the start itself where no walkable tile lies farther than it.
pub fn farthest_tile(tiles: &Vec<TileType>, dist: &Vec<Option<u64>>, start: usize) -> (e: usize)
    requires
        tiles.len() == dist.len(),
        start < dist.len(),
        dist[start as int] is Some,
    ensures
        is_farthest(tiles@, dist@, start as int, e as int),
{
    let mut best: usize = start;
    let mut best_d: u64 = match dist[start] {
        Some(d) => d,
        None => 0,
    };
    let mut i: usize = 0;
    while i < dist.len()
        invariant
            i <= dist.len(),
            tiles.len() == dist.len(),
            start < dist.len(),
            best < dist.len(),
            dist[best as int] == Some(best_d),
            dist[start as int]->0 <= best_d,
            best != start ==> walkable(tiles[best as int]) && best < i,
            forall|k: int| 0 <= k < i && #[trigger] reachable_floor(tiles@, dist@, k) ==> dist[k]->0 <= best_d,
            best != start ==> forall|k: int|
                0 <= k < best && #[trigger] reachable_floor(tiles@, dist@, k) ==> dist[k]->0 < best_d,
            best == start ==> best_d == dist[start as int]->0,
        decreases dist.len() - i,
    {
        if tile_walkable(tiles[i]) {
            if let Some(di) = dist[i] {
                if di > best_d {
                    best = i;
                    best_d = di;
                }
            }
        }
        i = i + 1;
    }
    best
}

/// Finds the cheapest distance from `start_idx` to every tile over the level's walkable
/// terrain, turns each walkable tile that cannot be reached into wall, and puts the down
/// stairs on the farthest reachable walkable tile (the first in scan order among equals).
/// Returns the distances and the index of the stairs.
pub fn cull_and_place_exit(map: &mut GameMap, start_idx: usize) -> (r: (Vec<Option<u64>>, usize))
    requires
        old(map).wf(),
        0 < old(map).width,
        0 < old(map).height,
        start_idx < old(map).tile_count(),
    ensures
        final(map).wf(),
        final(map).width == old(map).width,
        final(map).height == old(map).height,
        final(map).depth == old(map).depth,
        is_distance_map(
            old(map).width as int,
            old(map).height as int,
            old(map).tiles@,
            terrain_mask(old(map).tiles@),
            start_idx as int,
            r.0@,
        ),
        is_farthest(old(map).tiles@, r.0@, start_idx as int, r.1 as int),
        final(map).tiles@ == culled(old(map).tiles@, r.0@, r.1 as int),
        *final(map) == (GameMap { tiles: final(map).tiles, ..*old(map) }),
{
    let blocked = map.terrain_blocked();
    assert(blocked@ =~= terrain_mask(map.tiles@));
    let w = map.width as usize;
    let h = map.height as usize;
    let dist = distance_map(&map.tiles, &blocked, w, h, start_idx);
    let exit = farthest_tile(&map.tiles, &dist, start_idx);
    let ghost before = map.tiles@;
    cull_unreachable_tiles(&mut map.tiles, &dist);
    map.tiles.set(exit, TileType::DownStairs);
    assert(map.tiles@ =~= culled(before, dist@, exit as int));
    (dist, exit)
}

/// Every walkable tile left by `cull_and_place_exit` is reachable from the start over the
/// terrain it was given: some walk from the start leads to it.
pub proof fn lemma_culled_level_reachable(
    w: int,
    h: int,
    old_tiles: Seq<TileType>,
    new_tiles: Seq<TileType>,
    s: int,
    d: Seq<Option<u64>>,
    e: int,
    i: int,
)
    requires
        is_distance_map(w, h, old_tiles, terrain_mask(old_tiles), s, d),
        is_farthest(old_tiles, d, s, e),
        old_tiles.len() == d.len(),
        new_tiles == culled(old_tiles, d, e),
        0 <= i < new_tiles.len(),
        walkable(new_tiles[i]),
    ensures
        d[i] is Some,
        reaches(w, h, old_tiles, terrain_mask(old_tiles), s, i, d[i]->0 as int),
{
    assert(new_tiles[i] == new_tiles[i]);
}

/// The stairs placed by `cull_and_place_exit` are at least as far from the start as every
/// reachable walkable tile: whatever walk leads to such a tile, the least cost of reaching it
/// is at most the stairs' distance.
pub proof fn lemma_exit_is_farthest(
    w: int,
    h: int,
    tiles: Seq<TileType>,
    s: int,
    d: Seq<Option<u64>>,
    e: int,
    p: Seq<(int, int)>,
    t: int,
    c: int,
)
    requires
        0 < w,
        0 < h,
        tiles.len() == w * h,
        0 <= s < w * h,
        0 <= t < w * h,
        is_distance_map(w, h, tiles, terrain_mask(tiles), s, d),
        is_farthest(tiles, d, s, e),
        walkable(tiles[t]),
        walk(w, h, tiles, terrain_mask(tiles), p, s, t, c),
    ensures
        d[t] is Some,
        d[t]->0 <= d[e]->0,
        d[t]->0 as int <= c,
{
    lemma_distance_is_least(w, h, tiles, terrain_mask(tiles), d, s, p, t, c);
    assert(reachable_floor(tiles, d, t));
}

/// The tiles after culling and placing the stairs at `e`, as `cull_and_place_exit` leaves
/// them.
pub open spec fn culled(old_tiles: Seq<TileType>, d: Seq<Option<u64>>, e: int) -> Seq<TileType> {
    Seq::new(
        old_tiles.len(),
        |k: int|
            if k == e {
                TileType::DownStairs
            } else if walkable(old_tiles[k]) && d[k] is None {
                TileType::Wall
            } else {
                old_tiles[k]
            },
    )
}

/// A tile that some walk from the start reaches over the old terrain keeps a walkable tile
/// after culling.
proof fn lemma_reached_stays(
    w: int,
    h: int,
    tiles: Seq<TileType>,
    s: int,
    d: Seq<Option<u64>>,
    e: int,
    p: Seq<(int, int)>,
    c: int,
)
    requires
        0 < w,
        0 < h,
        tiles.len() == w * h,
        0 <= s < w * h,
        0 <= e < w * h,
        is_distance_map(w, h, tiles, terrain_mask(tiles), s, d),
        p.len() >= 2,
        p[0] == coord(w, s),
        path_cost(w, h, tiles, terrain_mask(tiles), p) == Some(c),
    ensures
        0 <= p.last().0 < w,
        0 <= p.last().1 < h,
        walkable(culled(tiles, d, e)[idx_of(w, p.last().0, p.last().1)]),
{
    let q = p.drop_last();
    assert(link(w, h, tiles, terrain_mask(tiles), p[p.len() - 2], p[p.len() - 1]) is Some);
    let t = idx_of(w, p.last().0, p.last().1);
    lemma_idx_bound(w, h, p.last().0, p.last().1);
    lemma_coord_of_idx(w, p.last().0, p.last().1);
    assert(walk(w, h, tiles, terrain_mask(tiles), p, s, t, c));
    lemma_distance_is_least(w, h, tiles, terrain_mask(tiles), d, s, p, t, c);
    assert(!terrain_mask(tiles)[t]);
}

/// A walk from the start over the old terrain is still a walk over the culled terrain
/// (its cost may change where the stairs replaced a tile).
proof fn lemma_walk_survives(
    w: int,
    h: int,
    tiles: Seq<TileType>,
    s: int,
    d: Seq<Option<u64>>,
    e: int,
    p: Seq<(int, int)>,
)
    requires
        0 < w,
        0 < h,
        tiles.len() == w * h,
        0 <= s < w * h,
        0 <= e < w * h,
        is_distance_map(w, h, tiles, terrain_mask(tiles), s, d),
        p.len() >= 1,
        p[0] == coord(w, s),
        path_cost(w, h, tiles, terrain_mask(tiles), p) is Some,
    ensures
        path_cost(w, h, culled(tiles, d, e), terrain_mask(culled(tiles, d, e)), p) is Some,
    decreases p.len(),
{
    let nt = culled(tiles, d, e);
    let nm = terrain_mask(nt);
    let om = terrain_mask(tiles);
    if p.len() > 1 {
        let q = p.drop_last();
        let a = q.last();
        let b = p.last();
        assert(q.last() == p[p.len() - 2]);
        assert(link(w, h, tiles, om, a, b) is Some);
        lemma_walk_survives(w, h, tiles, s, d, e, q);
        let c = path_cost(w, h, tiles, om, p)->0;
        lemma_reached_stays(w, h, tiles, s, d, e, p, c);
        let dx = b.0 - a.0;
        let dy = b.1 - a.1;
        lemma_idx_bound(w, h, b.0, b.1);
        if dx != 0 && dy != 0 {
            // both tiles beside a diagonal step are reached by a straight step
            let ca = (b.0, a.1);
            let cb = (a.0, b.1);
            let pa = q.push(ca);
            let pb = q.push(cb);
            assert(pa.drop_last() =~= q);
            assert(pb.drop_last() =~= q);
            assert(link(w, h, tiles, om, a, ca) is Some);
            assert(link(w, h, tiles, om, a, cb) is Some);
            if q.len() == 1 {
                assert(path_cost(w, h, tiles, om, q) == Some(0int));
            }
            lemma_reached_stays(w, h, tiles, s, d, e, pa, path_cost(w, h, tiles, om, pa)->0);
            lemma_reached_stays(w, h, tiles, s, d, e, pb, path_cost(w, h, tiles, om, pb)->0);
            lemma_idx_bound(w, h, ca.0, ca.1);
            lemma_idx_bound(w, h, cb.0, cb.1);
            assert(enterable(w, h, nm, b.0, a.1));
            assert(enterable(w, h, nm, a.0, b.1));
        }
        assert(link(w, h, nt, nm, a, b) is Some);
    }
}

/// After `cull_and_place_exit`, the level is connected: every walkable tile of the new
/// terrain is reached from the start by some walk over the new terrain itself.
pub proof fn lemma_level_connected_after_cull(
    w: int,
    h: int,
    tiles: Seq<TileType>,
    s: int,
    d: Seq<Option<u64>>,
    e: int,
    i: int,
)
    requires
        0 < w,
        0 < h,
        tiles.len() == w * h,
        0 <= s < w * h,
        is_distance_map(w, h, tiles, terrain_mask(tiles), s, d),
        is_farthest(tiles, d, s, e),
        0 <= i < w * h,
        walkable(culled(tiles, d, e)[i]),
    ensures
        exists|c: int| reaches(w, h, culled(tiles, d, e), terrain_mask(culled(tiles, d, e)), s, i, c),
{
    let nt = culled(tiles, d, e);
    lemma_culled_level_reachable(w, h, tiles, nt, s, d, e, i);
    let p = choose|p: Seq<(int, int)>| walk(w, h, tiles, terrain_mask(tiles), p, s, i, d[i]->0 as int);
    lemma_walk_survives(w, h, tiles, s, d, e, p);
    let c = path_cost(w, h, nt, terrain_mask(nt), p)->0;
    assert(walk(w, h, nt, terrain_mask(nt), p, s, i, c));
    assert(reaches(w, h, nt, terrain_mask(nt), s, i, c));
}

/// A walk of two or more tiles costs something: at least the cheapest step.
proof fn lemma_walk_cost_positive(w: int, h: int, tiles: Seq<TileType>, blocked: Seq<bool>, p: Seq<(int, int)>)
    requires
        p.len() >= 1,
        path_cost(w, h, tiles, blocked, p) is Some,
    ensures
        path_cost(w, h, tiles, blocked, p)->0 >= 0,
        p.len() >= 2 ==> path_cost(w, h, tiles, blocked, p)->0 > 0,
    decreases p.len(),
{
    if p.len() >= 2 {
        let q = p.drop_last();
        lemma_walk_cost_positive(w, h, tiles, blocked, q);
        assert(link(w, h, tiles, blocked, p[p.len() - 2], p[p.len() - 1]) is Some);
    }
}

/// Two distance maps that both meet the contract of `distance_map` for the same terrain
/// and start are equal.
pub proof fn lemma_distance_map_unique(
    w: int,
    h: int,
    tiles: Seq<TileType>,
    s: int,
    d1: Seq<Option<u64>>,
    d2: Seq<Option<u64>>,
)
    requires
        0 < w,
        0 < h,
        tiles.len() == w * h,
        0 <= s < w * h,
        is_distance_map(w, h, tiles, terrain_mask(tiles), s, d1),
        is_distance_map(w, h, tiles, terrain_mask(tiles), s, d2),
    ensures
        d1 == d2,
{
    let m = terrain_mask(tiles);
    assert forall|i: int| 0 <= i < w * h implies d1[i] == d2[i] by {
        if d1[i] is Some {
            let p = choose|p: Seq<(int, int)>| walk(w, h, tiles, m, p, s, i, d1[i]->0 as int);
            lemma_distance_is_least(w, h, tiles, m, d2, s, p, i, d1[i]->0 as int);
        }
        if d2[i] is Some {
            let p = choose|p: Seq<(int, int)>| walk(w, h, tiles, m, p, s, i, d2[i]->0 as int);
            lemma_distance_is_least(w, h, tiles, m, d1, s, p, i, d2[i]->0 as int);
        }
    }
    assert(d1 =~= d2);
}

/// Only the start is at distance 0.
proof fn lemma_only_start_at_zero(w: int, h: int, tiles: Seq<TileType>, s: int, d: Seq<Option<u64>>, i: int)
    requires
        0 < w,
        0 < h,
        tiles.len() == w * h,
        0 <= s < w * h,
        0 <= i < w * h,
        i != s,
        is_distance_map(w, h, tiles, terrain_mask(tiles), s, d),
        d[i] is Some,
    ensures
        d[i]->0 > 0,
{
    let m = terrain_mask(tiles);
    let p = choose|p: Seq<(int, int)>| walk(w, h, tiles, m, p, s, i, d[i]->0 as int);
    crate::map::lemma_index_coords(w, h, s);
    crate::map::lemma_index_coords(w, h, i);
    if p.len() == 1 {
        assert(coord(w, s) == coord(w, i));
        assert(false);
    }
    lemma_walk_cost_positive(w, h, tiles, m, p);
}

/// Placing the exit is deterministic: given the same terrain and start, any two outcomes
/// that meet the contract of `cull_and_place_exit` leave exactly the same tiles, with the
/// stairs on the same tile.
pub proof fn lemma_exit_placement_deterministic(
    w: int,
    h: int,
    tiles: Seq<TileType>,
    s: int,
    d1: Seq<Option<u64>>,
    e1: int,
    d2: Seq<Option<u64>>,
    e2: int,
)
    requires
        0 < w,
        0 < h,
        tiles.len() == w * h,
        0 <= s < w * h,
        is_distance_map(w, h, tiles, terrain_mask(tiles), s, d1),
        is_farthest(tiles, d1, s, e1),
        is_distance_map(w, h, tiles, terrain_mask(tiles), s, d2),
        is_farthest(tiles, d2, s, e2),
    ensures
        d1 == d2,
        e1 == e2,
        culled(tiles, d1, e1) == culled(tiles, d2, e2),
{
    lemma_distance_map_unique(w, h, tiles, s, d1, d2);
    let d = d1;
    if e1 != e2 {
        if e1 != s && e2 != s {
            assert(reachable_floor(tiles, d, e1));
            assert(reachable_floor(tiles, d, e2));
            if e1 < e2 {
                assert(d[e1]->0 < d[e2]->0);
            } else {
                assert(d[e2]->0 < d[e1]->0);
            }
        } else if e1 == s {
            assert(reachable_floor(tiles, d, e2));
            lemma_only_start_at_zero(w, h, tiles, s, d, e2);
        } else {
            assert(reachable_floor(tiles, d, e1));
            lemma_only_start_at_zero(w, h, tiles, s, d, e1);
        }
    }
}

} // verus!
