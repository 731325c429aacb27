use vstd::prelude::*;
use vstd::set_lib::{lemma_int_range, lemma_len_subset, set_int_range};
use vstd::arithmetic::div_mod::{lemma_fundamental_div_mod, lemma_fundamental_div_mod_converse};
use crate::tiles::{TileType, cost_tenths, tile_cost};

verus! {

/// Cost of the dearest single step (a diagonal step onto grass), in thousandths.
pub const MAX_STEP_COST: u64 = 2755;

/// Flat index of the tile at column `x`, row `y`.
pub open spec fn idx_of(w: int, x: int, y: int) -> int {
    y * w + x
}

/// Column and row of a flat index.
pub open spec fn coord(w: int, i: int) -> (int, int) {
    (i % w, i / w)
}

/// A tile can be stepped onto: it lies off the outer border and is not blocked.
pub open spec fn enterable(w: int, h: int, blocked: Seq<bool>, x: int, y: int) -> bool {
    1 <= x < w && 1 <= y < h && !blocked[idx_of(w, x, y)]
}

/// One of the eight neighbour offsets.
pub open spec fn is_dir(dx: int, dy: int) -> bool {
    -1 <= dx <= 1 && -1 <= dy <= 1 && !(dx == 0 && dy == 0)
}

/// Cost, in thousandths, of the step from (x, y) by (dx, dy), or `None` where that step
/// is not allowed. A straight step costs 100 times the destination's multiplier in tenths
/// (1.0 for plain floor), a diagonal one 145 times it (1.45); a diagonal step may not cut
/// a corner, so both tiles beside it must be enterable as well.
pub open spec fn step_cost(
    w: int,
    h: int,
    tiles: Seq<TileType>,
    blocked: Seq<bool>,
    x: int,
    y: int,
    dx: int,
    dy: int,
) -> Option<int> {
    if is_dir(dx, dy) && enterable(w, h, blocked, x + dx, y + dy) && (dx != 0 && dy != 0
        ==> enterable(w, h, blocked, x + dx, y) && enterable(w, h, blocked, x, y + dy)) {
        let c = cost_tenths(tiles[idx_of(w, x + dx, y + dy)]);
        if dx == 0 || dy == 0 {
            Some(100 * c)
        } else {
            Some(145 * c)
        }
    } else {
        None
    }
}

/// Cost of the step between two coordinates.
pub open spec fn link(
    w: int,
    h: int,
    tiles: Seq<TileType>,
    blocked: Seq<bool>,
    a: (int, int),
    b: (int, int),
) -> Option<int> {
    step_cost(w, h, tiles, blocked, a.0, a.1, b.0 - a.0, b.1 - a.1)
}

/// Total cost of a walk given as its sequence of coordinates, or `None` where some step of it
/// is not allowed (or the walk is empty).
pub open spec fn path_cost(
    w: int,
    h: int,
    tiles: Seq<TileType>,
    blocked: Seq<bool>,
    p: Seq<(int, int)>,
) -> Option<int>
    decreases p.len(),
{
    if p.len() == 0 {
        None
    } else if p.len() == 1 {
        Some(0)
    } else {
        match (
            path_cost(w, h, tiles, blocked, p.drop_last()),
            link(w, h, tiles, blocked, p[p.len() - 2], p[p.len() - 1]),
        ) {
            (Some(a), Some(b)) => Some(a + b),
            _ => None,
        }
    }
}

/// `p` is a walk from tile `s` to tile `t` whose cost is `c`.
pub open spec fn walk(
    w: int,
    h: int,
    tiles: Seq<TileType>,
    blocked: Seq<bool>,
    p: Seq<(int, int)>,
    s: int,
    t: int,
    c: int,
) -> bool {
    p.len() >= 1 && p[0] == coord(w, s) && p.last() == coord(w, t) && path_cost(
        w,
        h,
        tiles,
        blocked,
        p,
    ) == Some(c)
}

/// Some walk leads from tile `s` to tile `t` at cost `c`.
pub open spec fn reaches(
    w: int,
    h: int,
    tiles: Seq<TileType>,
    blocked: Seq<bool>,
    s: int,
    t: int,
    c: int,
) -> bool {
    exists|p: Seq<(int, int)>| walk(w, h, tiles, blocked, p, s, t, c)
}

/// Every step out of tile `i` is accounted for: its destination has a distance no larger
/// than the distance of `i` plus the step's cost.
pub open spec fn closed(
    w: int,
    h: int,
    tiles: Seq<TileType>,
    blocked: Seq<bool>,
    d: Seq<Option<u64>>,
    i: int,
) -> bool {
    forall|dx: int, dy: int|
        #[trigger] step_cost(w, h, tiles, blocked, i % w, i / w, dx, dy) is Some ==> {
            let j = idx_of(w, i % w + dx, i / w + dy);
            &&& d[j] is Some
            &&& d[j]->0 as int <= d[i]->0 as int + step_cost(
                w,
                h,
                tiles,
                blocked,
                i % w,
                i / w,
                dx,
                dy,
            )->0
        }
}

/// The step by (dx, dy) out of (x, y), where it is allowed, reaches a tile whose distance is
/// at most `du` plus the step's cost.
pub open spec fn dir_relaxed(
    w: int,
    h: int,
    tiles: Seq<TileType>,
    blocked: Seq<bool>,
    d: Seq<Option<u64>>,
    x: int,
    y: int,
    du: int,
    dx: int,
    dy: int,
) -> bool {
    step_cost(w, h, tiles, blocked, x, y, dx, dy) is Some ==> {
        let j = idx_of(w, x + dx, y + dy);
        &&& d[j] is Some
        &&& d[j]->0 as int <= du + step_cost(w, h, tiles, blocked, x, y, dx, dy)->0
    }
}

pub proof fn lemma_idx_bound(w: int, h: int, x: int, y: int)
    requires
        0 <= x < w,
        0 <= y < h,
    ensures
        0 <= idx_of(w, x, y) < w * h,
{
    assert(0 <= y * w + x < w * h) by (nonlinear_arith)
        requires
            0 <= x < w,
            0 <= y < h,
    ;
}

pub proof fn lemma_coord_of_idx(w: int, x: int, y: int)
    requires
        0 <= x < w,
        0 <= y,
    ensures
        coord(w, idx_of(w, x, y)) == (x, y),
{
    lemma_fundamental_div_mod_converse(idx_of(w, x, y), w, y, x);
}

proof fn lemma_idx_of_coord(w: int, h: int, i: int)
    requires
        0 < w,
        0 <= i < w * h,
    ensures
        0 <= i % w < w,
        0 <= i / w < h,
        idx_of(w, i % w, i / w) == i,
{
    lemma_fundamental_div_mod(i, w);
    assert(0 <= i % w < w) by {
        vstd::arithmetic::div_mod::lemma_mod_pos_bound(i, w);
    }
    assert(0 <= i / w) by {
        vstd::arithmetic::div_mod::lemma_div_pos_is_pos(i, w);
    }
    let q = i / w;
    let r = i % w;
    assert(q < h) by (nonlinear_arith)
        requires
            i == w * q + r,
            0 <= r,
            i < w * h,
            0 < w,
    ;
    assert(idx_of(w, r, q) == i) by (nonlinear_arith)
        requires
            i == w * q + r,
    ;
}

/// The last coordinate of a walk that starts inside the grid lies inside the grid.
proof fn lemma_walk_end_in_grid(
    w: int,
    h: int,
    tiles: Seq<TileType>,
    blocked: Seq<bool>,
    p: Seq<(int, int)>,
)
    requires
        p.len() >= 1,
        path_cost(w, h, tiles, blocked, p) is Some,
        0 <= p[0].0 < w,
        0 <= p[0].1 < h,
    ensures
        0 <= p.last().0 < w,
        0 <= p.last().1 < h,
{
    if p.len() > 1 {
        assert(link(w, h, tiles, blocked, p[p.len() - 2], p[p.len() - 1]) is Some);
    }
}

/// No walk from `start` to a tile is cheaper than the distance that `distance_map` gives
/// it, and every tile that some walk reaches has a distance: with `reaches`, each distance
/// is exactly the least cost of a walk from `start`.
pub proof fn lemma_distance_is_least(
    w: int,
    h: int,
    tiles: Seq<TileType>,
    blocked: Seq<bool>,
    d: Seq<Option<u64>>,
    start: int,
    p: Seq<(int, int)>,
    t: int,
    c: int,
)
    requires
        0 < w,
        0 < h,
        d.len() == w * h,
        tiles.len() == w * h,
        blocked.len() == w * h,
        0 <= start < w * h,
        0 <= t < w * h,
        d[start] == Some(0u64),
        forall|i: int| 0 <= i < d.len() && d[i] is Some ==> #[trigger] closed(w, h, tiles, blocked, d, i),
        walk(w, h, tiles, blocked, p, start, t, c),
    ensures
        d[t] is Some,
        d[t]->0 as int <= c,
    decreases p.len(),
{
    lemma_idx_of_coord(w, h, t);
    lemma_idx_of_coord(w, h, start);
    if p.len() > 1 {
        let q = p.drop_last();
        let a = path_cost(w, h, tiles, blocked, q)->0;
        let b = link(w, h, tiles, blocked, p[p.len() - 2], p[p.len() - 1])->0;
        assert(q.last() == p[p.len() - 2]);
        lemma_walk_end_in_grid(w, h, tiles, blocked, q);
        let s = idx_of(w, q.last().0, q.last().1);
        lemma_idx_bound(w, h, q.last().0, q.last().1);
        lemma_coord_of_idx(w, q.last().0, q.last().1);
        assert(walk(w, h, tiles, blocked, q, start, s, a));
        lemma_distance_is_least(w, h, tiles, blocked, d, start, q, s, a);
        assert(closed(w, h, tiles, blocked, d, s));
        let dx = p.last().0 - q.last().0;
        let dy = p.last().1 - q.last().1;
        assert(step_cost(w, h, tiles, blocked, s % w, s / w, dx, dy) == Some(b));
    }
}

fn enterable_exec(blocked: &Vec<bool>, w: usize, h: usize, x: i64, y: i64) -> (r: bool)
    requires
        blocked.len() == w * h,
        w <= u32::MAX,
        h <= u32::MAX,
    ensures
        r == enterable(w as int, h as int, blocked@, x as int, y as int),
{
    if x < 1 || y < 1 || x >= w as i64 || y >= h as i64 {
        return false;
    }
    proof {
        lemma_idx_bound(w as int, h as int, x as int, y as int);
    }
    let i = (y as usize) * w + (x as usize);
    !blocked[i]
}

fn step_exec(
    tiles: &Vec<TileType>,
    blocked: &Vec<bool>,
    w: usize,
    h: usize,
    x: usize,
    y: usize,
    dx: i64,
    dy: i64,
) -> (r: Option<u64>)
    requires
        tiles.len() == w * h,
        blocked.len() == w * h,
        w <= u32::MAX,
        h <= u32::MAX,
        x < w,
        y < h,
        -1 <= dx <= 1,
        -1 <= dy <= 1,
    ensures
        (r is Some) == (step_cost(
            w as int,
            h as int,
            tiles@,
            blocked@,
            x as int,
            y as int,
            dx as int,
            dy as int,
        ) is Some),
        r is Some ==> r->0 as int == step_cost(
            w as int,
            h as int,
            tiles@,
            blocked@,
            x as int,
            y as int,
            dx as int,
            dy as int,
        )->0,
        r is Some ==> r->0 <= MAX_STEP_COST,
{
    let nx = x as i64 + dx;
    let ny = y as i64 + dy;
    if dx == 0 && dy == 0 {
        return None;
    }
    if !enterable_exec(blocked, w, h, nx, ny) {
        return None;
    }
    if dx != 0 && dy != 0 {
        if !enterable_exec(blocked, w, h, nx, y as i64) || !enterable_exec(
            blocked,
            w,
            h,
            x as i64,
            ny,
        ) {
            return None;
        }
    }
    proof {
        lemma_idx_bound(w as int, h as int, nx as int, ny as int);
    }
    let c = tile_cost(tiles[(ny as usize) * w + (nx as usize)]) as u64;
    if dx == 0 || dy == 0 {
        Some(100 * c)
    } else {
        Some(145 * c)
    }
}

/// Lowers the distance of the neighbour of `u` by (dx, dy) to `du` plus the step's cost,
/// where the step is allowed, that neighbour is not settled, and that is an improvement.
#[verifier::rlimit(50)]
fn relax(
    dist: &mut Vec<Option<u64>>,
    done: &Vec<bool>,
    tiles: &Vec<TileType>,
    blocked: &Vec<bool>,
    w: usize,
    h: usize,
    start: usize,
    u: usize,
    du: u64,
    dx: i64,
    dy: i64,
    Ghost(bound): Ghost<int>,
)
    requires
        0 < w,
        0 < h,
        w * h <= u32::MAX,
        tiles.len() == w * h,
        blocked.len() == w * h,
        old(dist).len() == w * h,
        done.len() == w * h,
        u < w * h,
        done[u as int],
        old(dist)[u as int] == Some(du),
        du as int + MAX_STEP_COST as int <= bound,
        bound <= u64::MAX,
        -1 <= dx <= 1,
        -1 <= dy <= 1,
        forall|i: int| 0 <= i < w * h && #[trigger] old(dist)[i] is Some ==> old(dist)[i]->0 <= bound,
        forall|i: int|
            0 <= i < w * h && #[trigger] old(dist)[i] is Some ==> reaches(
                w as int,
                h as int,
                tiles@,
                blocked@,
                start as int,
                i,
                old(dist)[i]->0 as int,
            ),
        forall|j: int| 0 <= j < w * h && !done[j] && #[trigger] old(dist)[j] is Some ==> du <= old(dist)[j]->0,
        forall|j: int| 0 <= j < w * h && #[trigger] done[j] ==> old(dist)[j] is Some && old(dist)[j]->0 <= du,
    ensures
        final(dist).len() == w * h,
        forall|i: int|
            0 <= i < w * h && #[trigger] old(dist)[i] is Some ==> final(dist)[i] is Some
                && final(dist)[i]->0 <= old(dist)[i]->0,
        forall|i: int| 0 <= i < w * h && #[trigger] done[i] ==> final(dist)[i] == old(dist)[i],
        forall|j: int| 0 <= j < w * h && !done[j] && #[trigger] final(dist)[j] is Some ==> du <= final(dist)[j]->0,
        forall|i: int| 0 <= i < w * h && #[trigger] final(dist)[i] is Some ==> final(dist)[i]->0 <= bound,
        forall|i: int|
            0 <= i < w * h && #[trigger] final(dist)[i] is Some ==> reaches(
                w as int,
                h as int,
                tiles@,
                blocked@,
                start as int,
                i,
                final(dist)[i]->0 as int,
            ),
        forall|dx2: int, dy2: int|
            dir_relaxed(
                w as int,
                h as int,
                tiles@,
                blocked@,
                old(dist)@,
                (u as int) % (w as int),
                (u as int) / (w as int),
                du as int,
                dx2,
                dy2,
            ) ==> #[trigger] dir_relaxed(
                w as int,
                h as int,
                tiles@,
                blocked@,
                final(dist)@,
                (u as int) % (w as int),
                (u as int) / (w as int),
                du as int,
                dx2,
                dy2,
            ),
        dir_relaxed(
            w as int,
            h as int,
            tiles@,
            blocked@,
            final(dist)@,
            (u as int) % (w as int),
            (u as int) / (w as int),
            du as int,
            dx as int,
            dy as int,
        ),
{
    proof {
        lemma_idx_of_coord(w as int, h as int, u as int);
        assert(w as int <= w as int * h as int) by (nonlinear_arith)
            requires
                0 < h,
                0 < w,
        ;
        assert(h as int <= w as int * h as int) by (nonlinear_arith)
            requires
                0 < h,
                0 < w,
        ;
    }
    let ghost d_in = dist@;
    let x = u % w;
    let y = u / w;
    let step = step_exec(tiles, blocked, w, h, x, y, dx, dy);
    if let Some(c) = step {
        let nx = (x as i64 + dx) as usize;
        let ny = (y as i64 + dy) as usize;
        proof {
            lemma_idx_bound(w as int, h as int, nx as int, ny as int);
        }
        let v = ny * w + nx;
        let nd = du + c;
        if !done[v] {
            let better = match dist[v] {
                None => true,
                Some(dv) => nd < dv,
            };
            if better {
                proof {
                    let t = v as int;
                    let ghost pu = choose|p: Seq<(int, int)>|
                        walk(
                            w as int,
                            h as int,
                            tiles@,
                            blocked@,
                            p,
                            start as int,
                            u as int,
                            du as int,
                        );
                    let ghost pv = pu.push((nx as int, ny as int));
                    lemma_coord_of_idx(w as int, nx as int, ny as int);
                    assert(pv.drop_last() =~= pu);
                    assert(walk(
                        w as int,
                        h as int,
                        tiles@,
                        blocked@,
                        pv,
                        start as int,
                        t,
                        nd as int,
                    ));
                }
                dist.set(v, Some(nd));
            }
        }
    }
    proof {
        assert forall|dx2: int, dy2: int|
            dir_relaxed(
                w as int,
                h as int,
                tiles@,
                blocked@,
                d_in,
                x as int,
                y as int,
                du as int,
                dx2,
                dy2,
            ) implies #[trigger] dir_relaxed(
            w as int,
            h as int,
            tiles@,
            blocked@,
            dist@,
            x as int,
            y as int,
            du as int,
            dx2,
            dy2,
        ) by {
            if step_cost(w as int, h as int, tiles@, blocked@, x as int, y as int, dx2, dy2) is Some {
                lemma_idx_bound(w as int, h as int, x + dx2, y + dy2);
            }
        }
    }
}

/// Cheapest cost, in thousandths, of walking from `start` to every tile of a `width` by
/// `height` grid, or `None` for a tile that cannot be reached. Steps go to the eight
/// neighbours, onto tiles that are not `blocked` and lie off the outer border, as
/// `step_cost` states.
///
/// Every distance given is the cost of some walk from `start` (`reaches`), and no allowed
/// step leaves a tile with a distance for a tile without one, or for one whose distance
/// exceeds the first's plus the step's cost (`closed`). Together these make each distance
/// the least cost of any walk (see `lemma_distance_is_least`).
#[verifier::rlimit(80)]
pub fn distance_map(
    tiles: &Vec<TileType>,
    blocked: &Vec<bool>,
    width: usize,
    height: usize,
    start: usize,
) -> (d: Vec<Option<u64>>)
    requires
        0 < width,
        0 < height,
        width * height <= u32::MAX,
        tiles.len() == width * height,
        blocked.len() == width * height,
        start < width * height,
    ensures
        d.len() == width * height,
        d[start as int] == Some(0u64),
        forall|i: int|
            0 <= i < d.len() && #[trigger] d[i] is Some ==> reaches(
                width as int,
                height as int,
                tiles@,
                blocked@,
                start as int,
                i,
                d[i]->0 as int,
            ),
        forall|i: int|
            0 <= i < d.len() && d[i] is Some ==> #[trigger] closed(
                width as int,
                height as int,
                tiles@,
                blocked@,
                d@,
                i,
            ),
{
    let w = width;
    let h = height;
    let n = w * h;
    let mut dist: Vec<Option<u64>> = Vec::new();
    let mut done: Vec<bool> = Vec::new();
    let mut k: usize = 0;
    while k < n
        invariant
            k <= n,
            n == w * h,
            dist.len() == k,
            done.len() == k,
            forall|i: int| 0 <= i < k ==> dist[i] == (if i == start as int { Some(0u64) } else { None }),
            forall|i: int| 0 <= i < k ==> !done[i],
        decreases n - k,
    {
        if k == start {
            dist.push(Some(0));
        } else {
            dist.push(None);
        }
        done.push(false);
        k = k + 1;
    }
    proof {
        let ghost p = seq![coord(w as int, start as int)];
        assert(walk(w as int, h as int, tiles@, blocked@, p, start as int, start as int, 0));
        lemma_int_range(0, n as int);
    }
    let ghost mut settled_set: Set<int> = Set::empty();
    let mut settled: usize = 0;
    loop
        invariant
            n == w * h,
            0 < w,
            0 < h,
            n <= u32::MAX,
            start < n,
            tiles.len() == n,
            blocked.len() == n,
            dist.len() == n,
            done.len() == n,
            settled <= n,
            settled_set.finite(),
            settled_set.len() == settled,
            set_int_range(0, n as int).finite(),
            set_int_range(0, n as int).len() == n,
            forall|i: int| #[trigger] settled_set.contains(i) <==> (0 <= i < n && done[i]),
            dist[start as int] == Some(0u64),
            forall|i: int| 0 <= i < n && #[trigger] done[i] ==> dist[i] is Some,
            forall|i: int|
                0 <= i < n && #[trigger] dist[i] is Some ==> dist[i]->0 <= MAX_STEP_COST
                    * settled,
            forall|i: int, j: int|
                0 <= i < n && 0 <= j < n && #[trigger] done[i] && !#[trigger] done[j]
                    && dist[j] is Some ==> dist[i]->0 <= dist[j]->0,
            forall|i: int|
                0 <= i < n && #[trigger] done[i] ==> closed(
                    w as int,
                    h as int,
                    tiles@,
                    blocked@,
                    dist@,
                    i,
                ),
            forall|i: int|
                0 <= i < n && #[trigger] dist[i] is Some ==> reaches(
                    w as int,
                    h as int,
                    tiles@,
                    blocked@,
                    start as int,
                    i,
                    dist[i]->0 as int,
                ),
        ensures
            forall|i: int| 0 <= i < n && #[trigger] dist[i] is Some ==> done[i],
        decreases n - settled,
    {
        let mut best: usize = n;
        let mut best_d: u64 = 0;
        let mut i: usize = 0;
        while i < n
            invariant
                i <= n,
                dist.len() == n,
                done.len() == n,
                best == n || (best < n && !done[best as int] && dist[best as int] == Some(
                    best_d,
                )),
                forall|k: int|
                    0 <= k < i && !done[k] && #[trigger] dist[k] is Some ==> best < n && best_d
                        <= dist[k]->0,
            decreases n - i,
        {
            if !done[i] {
                if let Some(di) = dist[i] {
                    if best == n || di < best_d {
                        best = i;
                        best_d = di;
                    }
                }
            }
            i = i + 1;
        }
        if best == n {
            break ;
        }
        let u = best;
        let du = best_d;
        proof {
            assert(settled_set.insert(u as int).subset_of(set_int_range(0, n as int)));
            lemma_len_subset(settled_set.insert(u as int), set_int_range(0, n as int));
            assert(!settled_set.contains(u as int));
        }
        let mut done2 = done.clone();
        done2.set(u, true);
        assert(done2@ =~= done@.update(u as int, true));
        done = done2;
        settled = settled + 1;
        proof {
            settled_set = settled_set.insert(u as int);
        }
        let ghost bound: int = MAX_STEP_COST * settled;
        let ghost x = (u as int) % (w as int);
        let ghost y = (u as int) / (w as int);
        let ghost d0 = dist@;
        relax(&mut dist, &done, tiles, blocked, w, h, start, u, du, -1, -1, Ghost(bound));
        let ghost d1 = dist@;
        relax(&mut dist, &done, tiles, blocked, w, h, start, u, du, 0, -1, Ghost(bound));
        let ghost d2 = dist@;
        relax(&mut dist, &done, tiles, blocked, w, h, start, u, du, 1, -1, Ghost(bound));
        let ghost d3 = dist@;
        relax(&mut dist, &done, tiles, blocked, w, h, start, u, du, -1, 0, Ghost(bound));
        let ghost d4 = dist@;
        relax(&mut dist, &done, tiles, blocked, w, h, start, u, du, 1, 0, Ghost(bound));
        let ghost d5 = dist@;
        relax(&mut dist, &done, tiles, blocked, w, h, start, u, du, -1, 1, Ghost(bound));
        let ghost d6 = dist@;
        relax(&mut dist, &done, tiles, blocked, w, h, start, u, du, 0, 1, Ghost(bound));
        let ghost d7 = dist@;
        relax(&mut dist, &done, tiles, blocked, w, h, start, u, du, 1, 1, Ghost(bound));
        proof {
            assert forall|dx: int, dy: int|
                is_dir(dx, dy) implies #[trigger] dir_relaxed(
                w as int,
                h as int,
                tiles@,
                blocked@,
                dist@,
                x,
                y,
                du as int,
                dx,
                dy,
            ) by {
            }
            assert forall|i: int|
                0 <= i < n && #[trigger] done[i] implies closed(
                w as int,
                h as int,
                tiles@,
                blocked@,
                dist@,
                i,
            ) by {
                lemma_idx_of_coord(w as int, h as int, i);
                if i == u as int {
                    assert forall|dx: int, dy: int|
                        #[trigger] step_cost(w as int, h as int, tiles@, blocked@, i % (w as int),
                        i / (w as int), dx, dy) is Some implies {
                        let j = idx_of(w as int, i % (w as int) + dx, i / (w as int) + dy);
                        &&& dist[j] is Some
                        &&& dist[j]->0 as int <= dist[i]->0 as int + step_cost(
                            w as int,
                            h as int,
                            tiles@,
                            blocked@,
                            i % (w as int),
                            i / (w as int),
                            dx,
                            dy,
                        )->0
                    } by {
                        assert(dir_relaxed(
                            w as int,
                            h as int,
                            tiles@,
                            blocked@,
                            dist@,
                            x,
                            y,
                            du as int,
                            dx,
                            dy,
                        ));
                    }
                } else {
                    assert(closed(w as int, h as int, tiles@, blocked@, d0, i));
                    assert forall|dx: int, dy: int|
                        #[trigger] step_cost(w as int, h as int, tiles@, blocked@, i % (w as int),
                        i / (w as int), dx, dy) is Some implies {
                        let j = idx_of(w as int, i % (w as int) + dx, i / (w as int) + dy);
                        &&& dist[j] is Some
                        &&& dist[j]->0 as int <= dist[i]->0 as int + step_cost(
                            w as int,
                            h as int,
                            tiles@,
                            blocked@,
                            i % (w as int),
                            i / (w as int),
                            dx,
                            dy,
                        )->0
                    } by {
                        let j = idx_of(w as int, i % (w as int) + dx, i / (w as int) + dy);
                        lemma_idx_bound(
                            w as int,
                            h as int,
                            i % (w as int) + dx,
                            i / (w as int) + dy,
                        );
                        assert(d0[j] is Some);
                        assert(d1[j] is Some && d1[j]->0 <= d0[j]->0);
                        assert(d2[j] is Some && d2[j]->0 <= d1[j]->0);
                        assert(d3[j] is Some && d3[j]->0 <= d2[j]->0);
                        assert(d4[j] is Some && d4[j]->0 <= d3[j]->0);
                        assert(d5[j] is Some && d5[j]->0 <= d4[j]->0);
                        assert(d6[j] is Some && d6[j]->0 <= d5[j]->0);
                        assert(d7[j] is Some && d7[j]->0 <= d6[j]->0);
                        assert(dist[j] is Some && dist[j]->0 <= d7[j]->0);
                    }
                }
            }
            assert forall|i: int, j: int|
                0 <= i < n && 0 <= j < n && #[trigger] done[i] && !#[trigger] done[j]
                    && dist[j] is Some implies dist[i]->0 <= dist[j]->0 by {
                assert(d0[i] is Some && d0[i]->0 <= du);
            }
        }
    }
    proof {
        assert forall|i: int|
            0 <= i < n && dist[i] is Some implies #[trigger] closed(
            w as int,
            h as int,
            tiles@,
            blocked@,
            dist@,
            i,
        ) by {
            assert(done[i]);
        }
    }
    dist
}

/// The eight neighbour offsets in the order exits are listed: west, east, north, south,
/// then north-west, north-east, south-west, south-east.
pub open spec fn dir_at(k: int) -> (int, int) {
    if k == 0 {
        (-1, 0)
    } else if k == 1 {
        (1, 0)
    } else if k == 2 {
        (0, -1)
    } else if k == 3 {
        (0, 1)
    } else if k == 4 {
        (-1, -1)
    } else if k == 5 {
        (1, -1)
    } else if k == 6 {
        (-1, 1)
    } else {
        (1, 1)
    }
}

/// The allowed steps among the first `k` directions out of (x, y), as (destination, cost).
pub open spec fn exits_upto(
    w: int,
    h: int,
    tiles: Seq<TileType>,
    blocked: Seq<bool>,
    x: int,
    y: int,
    k: int,
) -> Seq<(usize, u64)>
    decreases k,
{
    if k <= 0 {
        Seq::empty()
    } else {
        let rest = exits_upto(w, h, tiles, blocked, x, y, k - 1);
        let d = dir_at(k - 1);
        match step_cost(w, h, tiles, blocked, x, y, d.0, d.1) {
            Some(c) => rest.push((idx_of(w, x + d.0, y + d.1) as usize, c as u64)),
            None => rest,
        }
    }
}

fn push_exit(
    r: &mut Vec<(usize, u64)>,
    tiles: &Vec<TileType>,
    blocked: &Vec<bool>,
    w: usize,
    h: usize,
    x: usize,
    y: usize,
    k: usize,
    dx: i64,
    dy: i64,
)
    requires
        tiles.len() == w * h,
        blocked.len() == w * h,
        w <= u32::MAX,
        h <= u32::MAX,
        x < w,
        y < h,
        k < 8,
        dir_at(k as int) == (dx as int, dy as int),
        old(r)@ == exits_upto(w as int, h as int, tiles@, blocked@, x as int, y as int, k as int),
    ensures
        final(r)@ == exits_upto(w as int, h as int, tiles@, blocked@, x as int, y as int, k as int + 1),
{
    match step_exec(tiles, blocked, w, h, x, y, dx, dy) {
        Some(c) => {
            let nx = (x as i64 + dx) as usize;
            let ny = (y as i64 + dy) as usize;
            proof {
                lemma_idx_bound(w as int, h as int, nx as int, ny as int);
            }
            r.push((ny * w + nx, c));
        },
        None => {},
    }
}

/// The steps allowed out of tile `idx`, each as (destination, cost in thousandths), in the
/// order west, east, north, south, north-west, north-east, south-west, south-east.
pub fn get_available_exits(
    tiles: &Vec<TileType>,
    blocked: &Vec<bool>,
    width: usize,
    height: usize,
    idx: usize,
) -> (r: Vec<(usize, u64)>)
    requires
        0 < width,
        0 < height,
        width * height <= u32::MAX,
        tiles.len() == width * height,
        blocked.len() == width * height,
        idx < width * height,
    ensures
        r@ == exits_upto(
            width as int,
            height as int,
            tiles@,
            blocked@,
            idx as int % width as int,
            idx as int / width as int,
            8,
        ),
{
    proof {
        lemma_idx_of_coord(width as int, height as int, idx as int);
        assert(width as int <= width as int * height as int) by (nonlinear_arith)
            requires
                0 < height,
                0 < width,
        ;
        assert(height as int <= width as int * height as int) by (nonlinear_arith)
            requires
                0 < height,
                0 < width,
        ;
    }
    let x = idx % width;
    let y = idx / width;
    let mut r: Vec<(usize, u64)> = Vec::new();
    push_exit(&mut r, tiles, blocked, width, height, x, y, 0, -1, 0);
    push_exit(&mut r, tiles, blocked, width, height, x, y, 1, 1, 0);
    push_exit(&mut r, tiles, blocked, width, height, x, y, 2, 0, -1);
    push_exit(&mut r, tiles, blocked, width, height, x, y, 3, 0, 1);
    push_exit(&mut r, tiles, blocked, width, height, x, y, 4, -1, -1);
    push_exit(&mut r, tiles, blocked, width, height, x, y, 5, 1, -1);
    push_exit(&mut r, tiles, blocked, width, height, x, y, 6, -1, 1);
    push_exit(&mut r, tiles, blocked, width, height, x, y, 7, 1, 1);
    r
}

} // verus!
